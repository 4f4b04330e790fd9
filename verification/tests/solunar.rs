use chrono::NaiveDate;
use fishcast::conditions::SolunarPeriod;
use fishcast::solunar::{build_snapshot, current_solunar_period, knights_solunar_windows, SolunarWindow, SunMoonError, SunMoonTimes};

fn dt(y: i32, m: u32, d: u32, h: u32, min: u32) -> i64 {
    NaiveDate::from_ymd_opt(y, m, d).unwrap().and_hms_opt(h, min, 0).unwrap().and_utc().timestamp_millis()
}

#[test]
fn minor_windows_center_on_rise_and_set() {
    let mr = dt(2026, 8, 10, 8, 58);
    let ms = dt(2026, 8, 10, 21, 30);
    let windows = knights_solunar_windows(Some(mr), Some(ms));
    assert!(windows.iter().any(|w| w.kind == SolunarPeriod::Minor && w.center == mr));
    assert!(windows.iter().any(|w| w.kind == SolunarPeriod::Minor && w.center == ms));
}

#[test]
fn major_window_is_midpoint_of_rise_and_set() {
    let mr = dt(2026, 8, 10, 8, 0);
    let ms = dt(2026, 8, 10, 20, 0);
    let windows = knights_solunar_windows(Some(mr), Some(ms));
    let majors: Vec<_> = windows.iter().filter(|w| w.kind == SolunarPeriod::Major).collect();
    assert_eq!(majors.len(), 3); // midpoint transit + opposite transit on either side
    assert!(majors.iter().any(|w| w.center == dt(2026, 8, 10, 14, 0)));
}

#[test]
fn transit_from_a_single_moon_time() {
    let mr = dt(2026, 8, 10, 8, 0);
    // a quarter lunar day (372 minutes) after moonrise; opposite transits 744 minutes away
    let windows = knights_solunar_windows(Some(mr), None);
    assert_eq!(windows.len(), 4);
    assert_eq!(windows[1].center, dt(2026, 8, 10, 14, 12));
    assert_eq!(windows[2].center, dt(2026, 8, 11, 2, 36));
    assert_eq!(windows[3].center, dt(2026, 8, 10, 1, 48));
    // a set before the rise falls back to the rise
    let windows = knights_solunar_windows(Some(mr), Some(dt(2026, 8, 10, 7, 0)));
    assert_eq!(windows[2].center, dt(2026, 8, 10, 14, 12));
    let windows = knights_solunar_windows(None, Some(dt(2026, 8, 10, 20, 0)));
    assert_eq!(windows[1].center, dt(2026, 8, 10, 13, 48));
}

#[test]
fn current_period_matches_within_major_window() {
    let windows = vec![SolunarWindow { kind: SolunarPeriod::Major, center: dt(2026, 8, 10, 14, 0) }];
    assert_eq!(current_solunar_period(&windows, dt(2026, 8, 10, 14, 30)), SolunarPeriod::Major);
    assert_eq!(current_solunar_period(&windows, dt(2026, 8, 10, 17, 0)), SolunarPeriod::Neutral);
}

#[test]
fn current_period_matches_within_minor_window() {
    let windows = vec![SolunarWindow { kind: SolunarPeriod::Minor, center: dt(2026, 8, 10, 8, 58) }];
    assert_eq!(current_solunar_period(&windows, dt(2026, 8, 10, 9, 10)), SolunarPeriod::Minor);
    assert_eq!(current_solunar_period(&windows, dt(2026, 8, 10, 10, 0)), SolunarPeriod::Neutral);
}

#[test]
fn major_takes_priority_over_overlapping_minor() {
    let windows = vec![
        SolunarWindow { kind: SolunarPeriod::Minor, center: dt(2026, 8, 10, 14, 0) },
        SolunarWindow { kind: SolunarPeriod::Major, center: dt(2026, 8, 10, 14, 0) },
    ];
    assert_eq!(current_solunar_period(&windows, dt(2026, 8, 10, 14, 0)), SolunarPeriod::Major);
}

#[test]
fn window_edges_count_whole_minutes() {
    let center = dt(2026, 8, 10, 14, 0);
    let windows = vec![SolunarWindow { kind: SolunarPeriod::Major, center }];
    // 60 minutes and 59 seconds away is still 60 whole minutes
    assert_eq!(current_solunar_period(&windows, center + 60 * 60_000 + 59_000), SolunarPeriod::Major);
    assert_eq!(current_solunar_period(&windows, center - 61 * 60_000), SolunarPeriod::Neutral);
}

#[test]
fn no_moon_data_gives_no_windows() {
    assert!(knights_solunar_windows(None, None).is_empty());
}

#[test]
fn parses_fixture_response() {
    let results = SunMoonTimes {
        date_start: dt(2026, 8, 10, 0, 0),
        sunrise: "11:39:35 AM".to_string(),
        sunset: "1:27:06 AM".to_string(),
        moonrise: Some("8:58:38 AM".to_string()),
        moonset: None,
    };
    let snapshot = build_snapshot(results, dt(2026, 8, 10, 12, 0)).unwrap();
    // sunset (1:27:06 AM) is earlier-clock-time than sunrise (11:39:35 AM) -> rolls to next day
    assert_eq!(
        snapshot.sunset,
        NaiveDate::from_ymd_opt(2026, 8, 11).unwrap().and_hms_opt(1, 27, 6).unwrap().and_utc().timestamp_millis()
    );
    assert_eq!(
        snapshot.sunrise,
        NaiveDate::from_ymd_opt(2026, 8, 10).unwrap().and_hms_opt(11, 39, 35).unwrap().and_utc().timestamp_millis()
    );
}

#[test]
fn bad_sun_times_are_errors_and_bad_moon_times_are_skipped() {
    let at = dt(2026, 8, 10, 12, 0);
    let bad_sunrise = SunMoonTimes {
        date_start: dt(2026, 8, 10, 0, 0),
        sunrise: "sometime".to_string(),
        sunset: "1:27:06 AM".to_string(),
        moonrise: None,
        moonset: None,
    };
    assert!(matches!(build_snapshot(bad_sunrise, at), Err(SunMoonError::BadSunrise)));
    let bad_sunset = SunMoonTimes {
        date_start: dt(2026, 8, 10, 0, 0),
        sunrise: "6:00:00 AM".to_string(),
        sunset: "25:00:00 PM".to_string(),
        moonrise: None,
        moonset: None,
    };
    assert!(matches!(build_snapshot(bad_sunset, at), Err(SunMoonError::BadSunset)));
    let bad_moon = SunMoonTimes {
        date_start: dt(2026, 8, 10, 0, 0),
        sunrise: "6:00:00 AM".to_string(),
        sunset: "8:00:00 PM".to_string(),
        moonrise: Some("garbage".to_string()),
        moonset: Some("11:00:00 AM".to_string()),
    };
    let snapshot = build_snapshot(bad_moon, dt(2026, 8, 10, 11, 20)).unwrap();
    // only the moonset minor window and the majors derived from it remain
    assert_eq!(snapshot.solunar_windows.len(), 4);
    assert_eq!(snapshot.solunar_period, SolunarPeriod::Minor);
    assert_eq!(snapshot.sunset, dt(2026, 8, 10, 20, 0));
}
