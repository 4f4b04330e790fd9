use chrono::{Duration, NaiveDate};
use fishcast::conditions::{
    PressureTrend, Resolved, ResolvedConditions, SeasonPhase, Sky, SolunarPeriod, Source, TempTrend,
    TimeOfDay,
};
use fishcast::outlook::{
    bucket, build_windows, fishing_outlook, outlook_48h, quality_now, score_points, solunar_period_for,
    FishingQuality, QualityPoints,
};
use fishcast::solunar::{SolunarWindow, SunMoonSnapshot};
use fishcast::weather::HourlyForecastPoint;

fn dt(y: i32, m: u32, d: u32, h: u32, min: u32) -> i64 {
    NaiveDate::from_ymd_opt(y, m, d).unwrap().and_hms_opt(h, min, 0).unwrap().and_utc().timestamp_millis()
}

fn hours(n: i64) -> i64 {
    Duration::hours(n).num_milliseconds()
}

fn resolved<T>(value: T) -> Option<Resolved<T>> {
    Some(Resolved::new(value, Source::Derived))
}

#[test]
fn bucket_thresholds() {
    assert_eq!(bucket(-5), FishingQuality::Poor);
    assert_eq!(bucket(-3), FishingQuality::Poor);
    assert_eq!(bucket(-2), FishingQuality::Fair);
    assert_eq!(bucket(0), FishingQuality::Fair);
    assert_eq!(bucket(1), FishingQuality::Good);
    assert_eq!(bucket(3), FishingQuality::Good);
    assert_eq!(bucket(4), FishingQuality::Excellent);
    assert_eq!(bucket(10), FishingQuality::Excellent);
}

#[test]
fn score_adds_the_factors() {
    let best = QualityPoints {
        pressure_trend: Some(PressureTrend::Falling),
        temp_trend: Some(TempTrend::Warming),
        light_bonus: true,
        calm_and_bright: false,
        wind_moderate: true,
        solunar_period: Some(SolunarPeriod::Major),
        season_phase: Some(SeasonPhase::PreSpawn),
    };
    assert_eq!(score_points(&best), 8);
    let worst = QualityPoints {
        pressure_trend: Some(PressureTrend::Rising),
        temp_trend: Some(TempTrend::ColdFrontRecent),
        light_bonus: true,
        calm_and_bright: true,
        wind_moderate: false,
        solunar_period: Some(SolunarPeriod::Neutral),
        season_phase: Some(SeasonPhase::Winter),
    };
    assert_eq!(score_points(&worst), -6);
}

#[test]
fn quality_now_none_without_any_trend_signal() {
    let c = ResolvedConditions::default();
    assert_eq!(quality_now(&c), None);
}

#[test]
fn quality_now_falling_pressure_and_major_solunar_is_excellent() {
    let mut c = ResolvedConditions::default();
    c.pressure_trend = resolved(PressureTrend::Falling);
    c.solunar_period = resolved(SolunarPeriod::Major);
    c.time_of_day = resolved(TimeOfDay::Dawn);
    assert_eq!(quality_now(&c), Some(FishingQuality::Excellent));
}

#[test]
fn quality_now_rising_pressure_calm_bright_is_poor() {
    let mut c = ResolvedConditions::default();
    c.pressure_trend = resolved(PressureTrend::Rising);
    c.temp_trend = resolved(TempTrend::ColdFrontRecent);
    c.sky = resolved(Sky::Clear);
    c.time_of_day = resolved(TimeOfDay::Day);
    c.wind_mph = resolved(200);
    assert_eq!(quality_now(&c), Some(FishingQuality::Poor));
}

#[test]
fn build_windows_labels_correctly_during_daytime() {
    let sunrise = dt(2026, 8, 10, 12, 0); // 12:00 UTC
    let sunset = dt(2026, 8, 11, 1, 0); // 01:00 UTC next day (crosses midnight)
    let now = dt(2026, 8, 10, 15, 0); // during today's daylight
    let windows = build_windows(now, sunrise, sunset);
    let labels: Vec<&str> = windows.iter().map(|(l, ..)| l.as_str()).collect();
    // Exactly 4 full-cycle windows are guaranteed; a 5th short leftover
    // sliver is expected too, since `now` rarely lands exactly on a
    // day/night boundary and the 48h horizon is a fixed offset from it.
    assert_eq!(&labels[..4], &["Today", "Tonight", "Tomorrow", "Tomorrow night"]);
    // first window starts exactly at `now`, not at the nominal sunrise
    assert_eq!(windows[0].2, now);
}

#[test]
fn build_windows_labels_correctly_before_dawn() {
    let sunrise = dt(2026, 8, 10, 12, 0);
    let sunset = dt(2026, 8, 11, 1, 0);
    let now = dt(2026, 8, 10, 5, 0); // before today's sunrise
    let windows = build_windows(now, sunrise, sunset);
    let labels: Vec<&str> = windows.iter().map(|(l, ..)| l.as_str()).collect();
    assert_eq!(labels[0], "Tonight");
    assert_eq!(labels[1], "Today");
    assert_eq!(windows[0].2, now);
}

#[test]
fn build_windows_cover_up_to_48h_without_gaps() {
    let sunrise = dt(2026, 8, 10, 12, 0);
    let sunset = dt(2026, 8, 11, 1, 0);
    let now = dt(2026, 8, 10, 15, 0);
    let windows = build_windows(now, sunrise, sunset);
    let horizon = now + hours(48);

    assert_eq!(windows.first().unwrap().2, now);
    for pair in windows.windows(2) {
        assert_eq!(pair[0].3, pair[1].2, "windows should be contiguous, no gaps");
    }
    assert!(windows.last().unwrap().3 <= horizon);
    assert!(horizon - windows.last().unwrap().3 < hours(24));
}

#[test]
fn build_windows_drops_short_slivers() {
    let sunrise = dt(2026, 8, 10, 12, 0);
    let sunset = dt(2026, 8, 11, 1, 0);
    // 30 minutes before sunset: today's remaining daylight is too short to show
    let now = dt(2026, 8, 11, 0, 30);
    let windows = build_windows(now, sunrise, sunset);
    assert_eq!(windows[0].0, "Tonight");
    assert_eq!(windows[0].2, sunset);
    // the dropped sliver still counted as today, so the next day is tomorrow
    assert_eq!(windows[1].0, "Tomorrow");
}

#[test]
fn solunar_period_for_detects_major_overlap() {
    let windows = vec![SolunarWindow { kind: SolunarPeriod::Major, center: dt(2026, 8, 10, 14, 0) }];
    let period = solunar_period_for(&windows, dt(2026, 8, 10, 13, 30), dt(2026, 8, 10, 15, 0));
    assert_eq!(period, SolunarPeriod::Major);
}

#[test]
fn solunar_period_for_shifted_day_plus_one() {
    let windows = vec![SolunarWindow { kind: SolunarPeriod::Minor, center: dt(2026, 8, 10, 9, 0) }];
    // no window on day 0 near this range, but the +1 day shift (9:00 on the 11th) should match
    let period = solunar_period_for(&windows, dt(2026, 8, 11, 8, 30), dt(2026, 8, 11, 9, 30));
    assert_eq!(period, SolunarPeriod::Minor);
    // the span end is exclusive; nothing three days on
    assert_eq!(solunar_period_for(&windows, dt(2026, 8, 11, 8, 0), dt(2026, 8, 11, 9, 0)), SolunarPeriod::Neutral);
    assert_eq!(solunar_period_for(&windows, dt(2026, 8, 13, 8, 30), dt(2026, 8, 13, 9, 30)), SolunarPeriod::Neutral);
}

#[test]
fn outlook_48h_produces_windows_with_pressure_trend_from_forecast() {
    let sunrise = dt(2026, 8, 10, 12, 0);
    let sunset = dt(2026, 8, 11, 1, 0);
    let now = dt(2026, 8, 10, 15, 0);

    // sharply falling pressure through "Today"'s remaining hours
    let forecast: Vec<HourlyForecastPoint> = (0..10)
        .map(|h| HourlyForecastPoint {
            time: now + hours(h),
            pressure_mb: 101500 - (h as i32) * 100,
            sky: Sky::PartlyCloudy,
            wind_mph: 800,
        })
        .collect();

    let outlook = outlook_48h(&forecast, Some(101500), sunrise, sunset, &[], None, now);
    assert!(!outlook.is_empty());
    assert_eq!(outlook[0].label, "Today");
    // falling pressure across "Today" should not land on Poor
    assert_ne!(outlook[0].quality, FishingQuality::Poor);
}

#[test]
fn outlook_48h_scores_each_span() {
    let sunrise = dt(2026, 8, 10, 12, 0);
    let sunset = dt(2026, 8, 11, 1, 0);
    let now = dt(2026, 8, 10, 15, 0);
    // falling 1mb an hour for "Today" (mean 1010.5 vs 1015 now): falling (+2),
    // partly cloudy daytime (0), light wind (0): score 2 -> Good.
    let forecast: Vec<HourlyForecastPoint> = (0..10)
        .map(|h| HourlyForecastPoint {
            time: now + hours(h),
            pressure_mb: 101500 - (h as i32) * 100,
            sky: Sky::PartlyCloudy,
            wind_mph: 800,
        })
        .collect();
    let outlook = outlook_48h(&forecast, Some(101500), sunrise, sunset, &[], Some(SeasonPhase::Fall), now);
    // today: +2 pressure, +1 fall -> Good
    assert_eq!(outlook[0].quality, FishingQuality::Good);
    // tonight: no forecast hours, pressure carried over (stable), night light +1, fall +1 -> Good
    assert_eq!(outlook[1].label, "Tonight");
    assert_eq!(outlook[1].quality, FishingQuality::Good);
    // without a current pressure the first span has no trend: light 0, winter -1 -> Fair
    let no_anchor = outlook_48h(&forecast, None, sunrise, sunset, &[], Some(SeasonPhase::Winter), now);
    assert_eq!(no_anchor[0].quality, FishingQuality::Fair);
}

#[test]
fn fishing_outlook_is_never_partial() {
    let mut c = ResolvedConditions::default();
    c.pressure_trend = resolved(PressureTrend::Falling);
    let now = dt(2026, 8, 10, 15, 0);
    let sun = SunMoonSnapshot {
        sunrise: dt(2026, 8, 10, 12, 0),
        sunset: dt(2026, 8, 11, 1, 0),
        solunar_period: SolunarPeriod::Neutral,
        solunar_windows: vec![],
    };
    let without_forecast = fishing_outlook(&c, &None, &Some(sun), now);
    assert_eq!(without_forecast.now, Some(FishingQuality::Good));
    assert!(without_forecast.next_48h.is_empty());
    let sun = SunMoonSnapshot {
        sunrise: dt(2026, 8, 10, 12, 0),
        sunset: dt(2026, 8, 11, 1, 0),
        solunar_period: SolunarPeriod::Neutral,
        solunar_windows: vec![],
    };
    let with_all = fishing_outlook(&c, &Some(vec![]), &Some(sun), now);
    assert!(with_all.next_48h.len() >= 4);
}

#[test]
fn pressure_trend_moves_the_score_most() {
    let base = QualityPoints {
        pressure_trend: Some(PressureTrend::Stable),
        temp_trend: Some(TempTrend::Stable),
        light_bonus: false,
        calm_and_bright: false,
        wind_moderate: false,
        solunar_period: None,
        season_phase: None,
    };
    let falling = QualityPoints { pressure_trend: Some(PressureTrend::Falling), ..base };
    let rising = QualityPoints { pressure_trend: Some(PressureTrend::Rising), ..base };
    assert_eq!(score_points(&falling) - score_points(&rising), 4);
    let warm = QualityPoints { temp_trend: Some(TempTrend::Warming), ..base };
    let front = QualityPoints { temp_trend: Some(TempTrend::ColdFrontRecent), ..base };
    assert_eq!(score_points(&warm) - score_points(&front), 3);
}

#[test]
fn solunar_period_for_counts_any_other_window_as_minor() {
    let windows = vec![SolunarWindow { kind: SolunarPeriod::Neutral, center: dt(2026, 8, 10, 14, 0) }];
    let period = solunar_period_for(&windows, dt(2026, 8, 10, 13, 30), dt(2026, 8, 10, 15, 0));
    assert_eq!(period, SolunarPeriod::Minor);
}

#[test]
fn outlook_follows_the_windows_and_ignores_hours_outside_them() {
    let sunrise = dt(2026, 8, 10, 12, 0);
    let sunset = dt(2026, 8, 11, 1, 0);
    let now = dt(2026, 8, 10, 15, 0);
    let windows = build_windows(now, sunrise, sunset);
    let forecast: Vec<HourlyForecastPoint> = (0..10)
        .map(|h| HourlyForecastPoint {
            time: now + hours(h),
            pressure_mb: 101500 - (h as i32) * 100,
            sky: Sky::Clear,
            wind_mph: 300,
        })
        .collect();
    let outlook = outlook_48h(&forecast, Some(101500), sunrise, sunset, &[], None, now);
    assert_eq!(outlook.len(), windows.len());
    for (o, w) in outlook.iter().zip(windows.iter()) {
        assert_eq!((o.label.as_str(), o.start, o.end), (w.0.as_str(), w.2, w.3));
    }
    // an hour before now lies in no window
    let mut more = vec![HourlyForecastPoint { time: now - hours(1), pressure_mb: 90000, sky: Sky::Overcast, wind_mph: 3000 }];
    more.extend(forecast.iter().copied());
    let again = outlook_48h(&more, Some(101500), sunrise, sunset, &[], None, now);
    assert_eq!(again.len(), outlook.len());
    for (a, b) in again.iter().zip(outlook.iter()) {
        assert_eq!((a.label.as_str(), a.start, a.end, a.quality), (b.label.as_str(), b.start, b.end, b.quality));
    }
}

#[test]
fn build_windows_alternate_and_reach_the_horizon() {
    let sunrise = dt(2026, 8, 10, 12, 0);
    let sunset = dt(2026, 8, 11, 1, 0);
    for now in [dt(2026, 8, 10, 5, 0), dt(2026, 8, 10, 11, 30), dt(2026, 8, 10, 15, 0), dt(2026, 8, 11, 0, 30)] {
        let windows = build_windows(now, sunrise, sunset);
        assert!(!windows.is_empty());
        assert!(now <= windows[0].2 && windows[0].2 < now + hours(1));
        assert!(windows.last().unwrap().3 > now + hours(47));
        for pair in windows.windows(2) {
            assert_ne!(pair[0].1, pair[1].1);
        }
    }
}
