//! "Is now (or the next 48h) a good time to fish" - independent of bait
//! choice, a general favorability read from the same signals: pressure
//! trend first, temp trend next, then light/wind combinations and solunar
//! timing. A small additive point score is bucketed into four tiers.
//!
//! The 48h outlook reuses the scorer on forecast data, without the temp
//! trend (daily means do not extend into an hourly forecast) and with the
//! season phase held at the value resolved for "now".
use vstd::prelude::*;
use crate::calendar::{is_instant, DAY_MS, HOUR_MS, MINUTE_MS};
use crate::conditions::{
    PressureTrend, ResolvedConditions, SeasonPhase, Sky, SolunarPeriod, TempTrend, TimeOfDay,
};
use crate::numeric::{compare_fractions, fraction_order, ITEM_BOUND};
use crate::solunar::{SolunarWindow, SunMoonSnapshot};
use crate::weather::HourlyForecastPoint;

verus! {

#[derive(Clone, Copy, Debug, PartialEq, Eq, Structural)]
pub enum FishingQuality {
    Poor,
    Fair,
    Good,
    Excellent,
}

/// Poor < Fair < Good < Excellent.
pub open spec fn quality_rank(q: FishingQuality) -> int {
    match q {
        FishingQuality::Poor => 0,
        FishingQuality::Fair => 1,
        FishingQuality::Good => 2,
        FishingQuality::Excellent => 3,
    }
}

/// The factors the score reads.
#[derive(Clone, Copy, Debug)]
pub struct QualityPoints {
    pub pressure_trend: Option<PressureTrend>,
    pub temp_trend: Option<TempTrend>,
    pub light_bonus: bool,
    pub calm_and_bright: bool,
    pub wind_moderate: bool,
    pub solunar_period: Option<SolunarPeriod>,
    pub season_phase: Option<SeasonPhase>,
}

pub open spec fn pressure_points_of(t: Option<PressureTrend>) -> int {
    match t {
        Some(PressureTrend::Falling) => 2,
        Some(PressureTrend::Rising) => -2,
        _ => 0,
    }
}

pub open spec fn temp_points_of(t: Option<TempTrend>) -> int {
    match t {
        Some(TempTrend::ColdFrontRecent) => -2,
        Some(TempTrend::Cooling) => -1,
        Some(TempTrend::RecoveringFromFront) | Some(TempTrend::Warming) => 1,
        _ => 0,
    }
}

/// Calm and bright costs a point; otherwise good light earns one.
pub open spec fn light_points_of(calm_and_bright: bool, light_bonus: bool) -> int {
    if calm_and_bright {
        -1
    } else if light_bonus {
        1
    } else {
        0
    }
}

pub open spec fn solunar_points_of(p: Option<SolunarPeriod>) -> int {
    match p {
        Some(SolunarPeriod::Major) => 2,
        Some(SolunarPeriod::Minor) => 1,
        _ => 0,
    }
}

pub open spec fn season_points_of(p: Option<SeasonPhase>) -> int {
    match p {
        Some(SeasonPhase::PreSpawn) | Some(SeasonPhase::Fall) => 1,
        Some(SeasonPhase::Winter) => -1,
        _ => 0,
    }
}

/// The additive score of the factors.
pub open spec fn score_of(f: QualityPoints) -> int {
    pressure_points_of(f.pressure_trend) + temp_points_of(f.temp_trend) + light_points_of(
        f.calm_and_bright,
        f.light_bonus,
    ) + (if f.wind_moderate {
        1int
    } else {
        0
    }) + solunar_points_of(f.solunar_period) + season_points_of(f.season_phase)
}

fn pressure_part(t: Option<PressureTrend>) -> (r: i32)
    ensures
        r == pressure_points_of(t),
{
    match t {
        Some(PressureTrend::Falling) => 2,
        Some(PressureTrend::Rising) => -2,
        Some(PressureTrend::Stable) | None => 0,
    }
}

fn temp_part(t: Option<TempTrend>) -> (r: i32)
    ensures
        r == temp_points_of(t),
{
    match t {
        Some(TempTrend::ColdFrontRecent) => -2,
        Some(TempTrend::Cooling) => -1,
        Some(TempTrend::RecoveringFromFront) | Some(TempTrend::Warming) => 1,
        Some(TempTrend::Stable) | None => 0,
    }
}

fn solunar_part(p: Option<SolunarPeriod>) -> (r: i32)
    ensures
        r == solunar_points_of(p),
{
    match p {
        Some(SolunarPeriod::Major) => 2,
        Some(SolunarPeriod::Minor) => 1,
        Some(SolunarPeriod::Neutral) | None => 0,
    }
}

fn season_part(p: Option<SeasonPhase>) -> (r: i32)
    ensures
        r == season_points_of(p),
{
    match p {
        Some(SeasonPhase::PreSpawn) | Some(SeasonPhase::Fall) => 1,
        Some(SeasonPhase::Winter) => -1,
        _ => 0,
    }
}

pub fn score_points(f: &QualityPoints) -> (r: i32)
    ensures
        r == score_of(*f),
{
    let mut score: i32 = 0;
    score = score + pressure_part(f.pressure_trend);
    score = score + temp_part(f.temp_trend);
    if f.calm_and_bright {
        score = score - 1;
    } else if f.light_bonus {
        score = score + 1;
    }
    if f.wind_moderate {
        score = score + 1;
    }
    score = score + solunar_part(f.solunar_period);
    score = score + season_part(f.season_phase);
    score
}

/// -3 and below is poor, up to 0 fair, up to 3 good, above that excellent.
pub open spec fn bucket_of(score: int) -> FishingQuality {
    if score <= -3 {
        FishingQuality::Poor
    } else if score <= 0 {
        FishingQuality::Fair
    } else if score <= 3 {
        FishingQuality::Good
    } else {
        FishingQuality::Excellent
    }
}

pub fn bucket(score: i32) -> (r: FishingQuality)
    ensures
        r == bucket_of(score as int),
{
    if score <= -3 {
        FishingQuality::Poor
    } else if score <= 0 {
        FishingQuality::Fair
    } else if score <= 3 {
        FishingQuality::Good
    } else {
        FishingQuality::Excellent
    }
}

/// The quality buckets: -3 and below is poor, up to 0 fair, up to 3 good,
/// above 3 excellent.
pub proof fn bucket_law(score: int)
    ensures
        score <= -3 <==> bucket_of(score) == FishingQuality::Poor,
        -3 < score <= 0 <==> bucket_of(score) == FishingQuality::Fair,
        0 < score <= 3 <==> bucket_of(score) == FishingQuality::Good,
        3 < score <==> bucket_of(score) == FishingQuality::Excellent,
{
}

/// A higher score never buckets into a worse quality.
pub proof fn bucket_is_monotone(a: int, b: int)
    requires
        a <= b,
    ensures
        quality_rank(bucket_of(a)) <= quality_rank(bucket_of(b)),
{
}

/// The pressure trend is the single strongest factor: falling against
/// rising moves the score by 4 points, while changing any one other factor
/// moves it by at most 3.
pub proof fn pressure_trend_weighs_most(f: QualityPoints)
    ensures
        score_of(QualityPoints { pressure_trend: Some(PressureTrend::Falling), ..f }) - score_of(
            QualityPoints { pressure_trend: Some(PressureTrend::Rising), ..f },
        ) == 4,
        forall|t1: Option<PressureTrend>, t2: Option<PressureTrend>|
            -4 <= #[trigger] score_of(QualityPoints { pressure_trend: t1, ..f }) - #[trigger] score_of(
                QualityPoints { pressure_trend: t2, ..f },
            ) <= 4,
        forall|t: Option<TempTrend>|
            -3 <= score_of(f) - #[trigger] score_of(QualityPoints { temp_trend: t, ..f }) <= 3,
        forall|c: bool, l: bool|
            -2 <= score_of(f) - #[trigger] score_of(
                QualityPoints { calm_and_bright: c, light_bonus: l, ..f },
            ) <= 2,
        forall|w: bool| -1 <= score_of(f) - #[trigger] score_of(QualityPoints { wind_moderate: w, ..f }) <= 1,
        forall|p: Option<SolunarPeriod>|
            -2 <= score_of(f) - #[trigger] score_of(QualityPoints { solunar_period: p, ..f }) <= 2,
        forall|p: Option<SeasonPhase>|
            -2 <= score_of(f) - #[trigger] score_of(QualityPoints { season_phase: p, ..f }) <= 2,
{
}

/// Wind from 10 up to (not including) 18 mph, in hundredths.
pub open spec fn wind_is_moderate(wind_mph: int) -> bool {
    1000 <= wind_mph < 1800
}

pub fn wind_moderate(wind_mph: i32) -> (r: bool)
    ensures
        r == wind_is_moderate(wind_mph as int),
{
    1000 <= wind_mph && wind_mph < 1800
}

/// The factors read from resolved conditions: calm and bright means daytime
/// under a clear sky with wind under 5 mph; good light is dawn, dusk,
/// night or an overcast sky.
pub open spec fn points_now(c: ResolvedConditions) -> QualityPoints {
    let sky = match c.sky {
        Some(r) => Some(r.value),
        None => None,
    };
    let tod = match c.time_of_day {
        Some(r) => Some(r.value),
        None => None,
    };
    let is_daytime = tod == Some(TimeOfDay::Day);
    let is_low_light = tod == Some(TimeOfDay::Dawn) || tod == Some(TimeOfDay::Dusk) || tod == Some(
        TimeOfDay::Night,
    );
    let calm = match c.wind_mph {
        Some(r) => r.value < 500,
        None => false,
    };
    QualityPoints {
        pressure_trend: match c.pressure_trend {
            Some(r) => Some(r.value),
            None => None,
        },
        temp_trend: match c.temp_trend {
            Some(r) => Some(r.value),
            None => None,
        },
        light_bonus: is_low_light || sky == Some(Sky::Overcast),
        calm_and_bright: is_daytime && sky == Some(Sky::Clear) && calm,
        wind_moderate: match c.wind_mph {
            Some(r) => wind_is_moderate(r.value as int),
            None => false,
        },
        solunar_period: match c.solunar_period {
            Some(r) => Some(r.value),
            None => None,
        },
        season_phase: match c.season_phase {
            Some(r) => Some(r.value),
            None => None,
        },
    }
}

/// `None` without either anchor factor (pressure or temp trend); else the
/// bucketed score of the current factors.
pub open spec fn quality_now_of(c: ResolvedConditions) -> Option<FishingQuality> {
    if c.pressure_trend is None && c.temp_trend is None {
        None
    } else {
        Some(bucket_of(score_of(points_now(c))))
    }
}

pub fn quality_now(c: &ResolvedConditions) -> (r: Option<FishingQuality>)
    ensures
        r == quality_now_of(*c),
{
    let pressure_trend = match &c.pressure_trend {
        Some(r) => Some(r.value),
        None => None,
    };
    let temp_trend = match &c.temp_trend {
        Some(r) => Some(r.value),
        None => None,
    };
    if pressure_trend.is_none() && temp_trend.is_none() {
        return None;
    }
    let sky = match &c.sky {
        Some(r) => Some(r.value),
        None => None,
    };
    let time_of_day = match &c.time_of_day {
        Some(r) => Some(r.value),
        None => None,
    };
    let solunar_period = match &c.solunar_period {
        Some(r) => Some(r.value),
        None => None,
    };
    let season_phase = match &c.season_phase {
        Some(r) => Some(r.value),
        None => None,
    };
    let is_daytime = match time_of_day {
        Some(TimeOfDay::Day) => true,
        _ => false,
    };
    let is_low_light = match time_of_day {
        Some(TimeOfDay::Dawn) | Some(TimeOfDay::Dusk) | Some(TimeOfDay::Night) => true,
        _ => false,
    };
    let clear = match sky {
        Some(Sky::Clear) => true,
        _ => false,
    };
    let overcast = match sky {
        Some(Sky::Overcast) => true,
        _ => false,
    };
    let (calm, moderate) = match &c.wind_mph {
        Some(r) => (r.value < 500, wind_moderate(r.value)),
        None => (false, false),
    };
    let points = QualityPoints {
        pressure_trend,
        temp_trend,
        light_bonus: is_low_light || overcast,
        calm_and_bright: is_daytime && clear && calm,
        wind_moderate: moderate,
        solunar_period,
        season_phase,
    };
    assert(points == points_now(*c));
    Some(bucket(score_points(&points)))
}

// ---------------------------------------------------------------------------
// Per-window aggregates of the forecast
// ---------------------------------------------------------------------------

/// The forecast hours at instants in `[lo, hi)`, in order.
pub open spec fn points_in(fs: Seq<HourlyForecastPoint>, lo: int, hi: int) -> Seq<HourlyForecastPoint>
    decreases fs.len(),
{
    if fs.len() == 0 {
        Seq::empty()
    } else {
        let prev = points_in(fs.drop_last(), lo, hi);
        if lo <= fs.last().time < hi {
            prev.push(fs.last())
        } else {
            prev
        }
    }
}

pub open spec fn pressure_total(ps: Seq<HourlyForecastPoint>) -> int
    decreases ps.len(),
{
    if ps.len() == 0 {
        0
    } else {
        pressure_total(ps.drop_last()) + ps.last().pressure_mb
    }
}

pub open spec fn wind_total(ps: Seq<HourlyForecastPoint>) -> int
    decreases ps.len(),
{
    if ps.len() == 0 {
        0
    } else {
        wind_total(ps.drop_last()) + ps.last().wind_mph
    }
}

pub open spec fn sky_count(ps: Seq<HourlyForecastPoint>, sky: Sky) -> int
    decreases ps.len(),
{
    if ps.len() == 0 {
        0
    } else {
        sky_count(ps.drop_last(), sky) + if ps.last().sky == sky {
            1int
        } else {
            0
        }
    }
}

/// The most common sky; ties go to overcast, then clear. `None` for no hours.
pub open spec fn majority_sky_of(ps: Seq<HourlyForecastPoint>) -> Option<Sky> {
    let clear = sky_count(ps, Sky::Clear);
    let partly = sky_count(ps, Sky::PartlyCloudy);
    let overcast = sky_count(ps, Sky::Overcast);
    if ps.len() == 0 {
        None
    } else if overcast >= clear && overcast >= partly {
        Some(Sky::Overcast)
    } else if clear >= partly {
        Some(Sky::Clear)
    } else {
        Some(Sky::PartlyCloudy)
    }
}

proof fn lemma_totals_bounded(ps: Seq<HourlyForecastPoint>)
    ensures
        -(ps.len() * ITEM_BOUND) <= pressure_total(ps) <= ps.len() * ITEM_BOUND,
        -(ps.len() * ITEM_BOUND) <= wind_total(ps) <= ps.len() * ITEM_BOUND,
        0 <= sky_count(ps, Sky::Clear) <= ps.len(),
        0 <= sky_count(ps, Sky::PartlyCloudy) <= ps.len(),
        0 <= sky_count(ps, Sky::Overcast) <= ps.len(),
    decreases ps.len(),
{
    if ps.len() > 0 {
        lemma_totals_bounded(ps.drop_last());
    }
}

proof fn lemma_points_in_len(fs: Seq<HourlyForecastPoint>, lo: int, hi: int)
    ensures
        points_in(fs, lo, hi).len() <= fs.len(),
    decreases fs.len(),
{
    if fs.len() > 0 {
        lemma_points_in_len(fs.drop_last(), lo, hi);
    }
}

/// The forecast hours at instants in `[lo, hi)`.
fn select_points(forecast: &[HourlyForecastPoint], lo: i64, hi: i64) -> (r: Vec<HourlyForecastPoint>)
    ensures
        r@ == points_in(forecast@, lo as int, hi as int),
{
    let mut out: Vec<HourlyForecastPoint> = Vec::new();
    let mut i: usize = 0;
    while i < forecast.len()
        invariant
            i <= forecast@.len(),
            out@ == points_in(forecast@.take(i as int), lo as int, hi as int),
        decreases forecast.len() - i,
    {
        proof {
            assert(forecast@.take(i as int + 1).drop_last() =~= forecast@.take(i as int));
        }
        let p = forecast[i];
        if lo <= p.time && p.time < hi {
            out.push(p);
        }
        i = i + 1;
    }
    proof {
        assert(forecast@.take(i as int) =~= forecast@);
    }
    out
}

/// Mean pressure of the hours, as the exact pair (total, count).
pub fn mean_pressure(points: &[HourlyForecastPoint]) -> (r: Option<(i128, u64)>)
    ensures
        points@.len() == 0 ==> r is None,
        points@.len() > 0 ==> r == Some(
            (pressure_total(points@) as i128, points@.len() as u64),
        ),
{
    if points.len() == 0 {
        return None;
    }
    let mut sum: i128 = 0;
    let mut i: usize = 0;
    while i < points.len()
        invariant
            i <= points@.len(),
            sum == pressure_total(points@.take(i as int)),
        decreases points.len() - i,
    {
        proof {
            assert(points@.take(i as int + 1).drop_last() =~= points@.take(i as int));
            lemma_totals_bounded(points@.take(i as int));
        }
        sum = sum + points[i].pressure_mb as i128;
        i = i + 1;
    }
    proof {
        assert(points@.take(i as int) =~= points@);
    }
    Some((sum, points.len() as u64))
}

/// Mean wind of the hours, as the exact pair (total, count).
pub fn mean_wind(points: &[HourlyForecastPoint]) -> (r: Option<(i128, u64)>)
    ensures
        points@.len() == 0 ==> r is None,
        points@.len() > 0 ==> r == Some((wind_total(points@) as i128, points@.len() as u64)),
{
    if points.len() == 0 {
        return None;
    }
    let mut sum: i128 = 0;
    let mut i: usize = 0;
    while i < points.len()
        invariant
            i <= points@.len(),
            sum == wind_total(points@.take(i as int)),
        decreases points.len() - i,
    {
        proof {
            assert(points@.take(i as int + 1).drop_last() =~= points@.take(i as int));
            lemma_totals_bounded(points@.take(i as int));
        }
        sum = sum + points[i].wind_mph as i128;
        i = i + 1;
    }
    proof {
        assert(points@.take(i as int) =~= points@);
    }
    Some((sum, points.len() as u64))
}

pub fn majority_sky(points: &[HourlyForecastPoint]) -> (r: Option<Sky>)
    ensures
        r == majority_sky_of(points@),
{
    if points.len() == 0 {
        return None;
    }
    let mut clear: usize = 0;
    let mut partly: usize = 0;
    let mut overcast: usize = 0;
    let mut i: usize = 0;
    while i < points.len()
        invariant
            i <= points@.len(),
            clear == sky_count(points@.take(i as int), Sky::Clear),
            partly == sky_count(points@.take(i as int), Sky::PartlyCloudy),
            overcast == sky_count(points@.take(i as int), Sky::Overcast),
        decreases points.len() - i,
    {
        proof {
            assert(points@.take(i as int + 1).drop_last() =~= points@.take(i as int));
            lemma_totals_bounded(points@.take(i as int));
        }
        match points[i].sky {
            Sky::Clear => clear = clear + 1,
            Sky::PartlyCloudy => partly = partly + 1,
            Sky::Overcast => overcast = overcast + 1,
        }
        i = i + 1;
    }
    proof {
        assert(points@.take(i as int) =~= points@);
    }
    if overcast >= clear && overcast >= partly {
        Some(Sky::Overcast)
    } else if clear >= partly {
        Some(Sky::Clear)
    } else {
        Some(Sky::PartlyCloudy)
    }
}

// ---------------------------------------------------------------------------
// Solunar overlap of a window
// ---------------------------------------------------------------------------

/// The window, or its copy shifted by one or two days, is centred in
/// `[start, end)`.
pub open spec fn window_hits(w: SolunarWindow, start: int, end: int) -> bool {
    ||| start <= w.center < end
    ||| start <= w.center + DAY_MS < end
    ||| start <= w.center + 2 * DAY_MS < end
}

/// Some solunar window of `kind` (or its shifted copy) is centred in the span.
pub open spec fn solunar_hit(windows: Seq<SolunarWindow>, kind: SolunarPeriod, start: int, end: int) -> bool {
    exists|i: int|
        0 <= i < windows.len() && windows[i].kind == kind && window_hits(
            #[trigger] windows[i],
            start,
            end,
        )
}

/// Some solunar window that is not of kind `Major` (or its shifted copy) is
/// centred in the span.
pub open spec fn other_hit(windows: Seq<SolunarWindow>, start: int, end: int) -> bool {
    exists|i: int|
        0 <= i < windows.len() && windows[i].kind != SolunarPeriod::Major && window_hits(
            #[trigger] windows[i],
            start,
            end,
        )
}

/// `Major` if a (shifted) major window is centred in the span, else `Minor`
/// if any other window is, else `Neutral`.
pub open spec fn solunar_period_in(windows: Seq<SolunarWindow>, start: int, end: int) -> SolunarPeriod {
    if solunar_hit(windows, SolunarPeriod::Major, start, end) {
        SolunarPeriod::Major
    } else if other_hit(windows, start, end) {
        SolunarPeriod::Minor
    } else {
        SolunarPeriod::Neutral
    }
}

/// A window's centre shifted by `k` whole days.
pub open spec fn shifted_center(w: SolunarWindow, k: int) -> int {
    w.center + k * DAY_MS
}

/// The solunar overlap of a span: `Major` exactly when some major window's
/// centre, shifted by 0, 1 or 2 whole days, lies in `[start, end)`; else
/// `Minor` exactly when some other window's shifted centre does; else
/// `Neutral`.
pub proof fn solunar_overlap_checks_three_days(windows: Seq<SolunarWindow>, start: int, end: int)
    ensures
        (solunar_period_in(windows, start, end) == SolunarPeriod::Major) <==> exists|i: int, k: int|
            0 <= i < windows.len() && 0 <= k <= 2 && windows[i].kind == SolunarPeriod::Major
                && start <= #[trigger] shifted_center(windows[i], k) < end,
        (solunar_period_in(windows, start, end) == SolunarPeriod::Neutral) <==> forall|i: int, k: int|
            0 <= i < windows.len() && 0 <= k <= 2 ==> !(start <= #[trigger] shifted_center(windows[i], k) < end),
        forall|i: int, k: int|
            0 <= i < windows.len() && 0 <= k <= 2 && windows[i].kind == SolunarPeriod::Major
                && start <= #[trigger] shifted_center(windows[i], k) < end ==> solunar_period_in(windows, start, end)
                == SolunarPeriod::Major,
{
    assert forall|i: int, k: int|
        0 <= i < windows.len() && 0 <= k <= 2 && start <= #[trigger] shifted_center(windows[i], k) < end
        implies solunar_period_in(windows, start, end) != SolunarPeriod::Neutral && (windows[i].kind
        == SolunarPeriod::Major ==> solunar_period_in(windows, start, end) == SolunarPeriod::Major) by {
        assert(window_hits(windows[i], start, end));
        if windows[i].kind == SolunarPeriod::Major {
            assert(solunar_hit(windows, SolunarPeriod::Major, start, end));
        } else {
            assert(other_hit(windows, start, end));
        }
    }
    if solunar_hit(windows, SolunarPeriod::Major, start, end) {
        let i = choose|i: int|
            0 <= i < windows.len() && windows[i].kind == SolunarPeriod::Major && window_hits(
                #[trigger] windows[i],
                start,
                end,
            );
        lemma_hit_has_shift(windows[i], start, end);
    } else if other_hit(windows, start, end) {
        let i = choose|i: int|
            0 <= i < windows.len() && windows[i].kind != SolunarPeriod::Major && window_hits(
                #[trigger] windows[i],
                start,
                end,
            );
        lemma_hit_has_shift(windows[i], start, end);
    }
}

proof fn lemma_hit_has_shift(w: SolunarWindow, start: int, end: int)
    requires
        window_hits(w, start, end),
    ensures
        exists|k: int| 0 <= k <= 2 && start <= #[trigger] shifted_center(w, k) < end,
{
    if start <= w.center < end {
        assert(shifted_center(w, 0) == w.center);
    } else if start <= w.center + DAY_MS < end {
        assert(shifted_center(w, 1) == w.center + DAY_MS);
    } else {
        assert(shifted_center(w, 2) == w.center + 2 * DAY_MS);
    }
}

/// Checks the span against today's solunar windows plus copies shifted
/// +24h/+48h (the moon drifts ~50min/day, so the error grows across the
/// horizon but stays below a major period's width). Major takes priority
/// over Minor when both overlap.
pub fn solunar_period_for(windows: &[SolunarWindow], start: i64, end: i64) -> (r: SolunarPeriod)
    requires
        forall|i: int|
            0 <= i < windows@.len() ==> is_instant(#[trigger] windows@[i].center + 2 * DAY_MS),
        forall|i: int| 0 <= i < windows@.len() ==> is_instant(#[trigger] windows@[i].center as int),
    ensures
        r == solunar_period_in(windows@, start as int, end as int),
{
    let mut saw_minor = false;
    let mut i: usize = 0;
    while i < windows.len()
        invariant
            i <= windows@.len(),
            forall|j: int|
                0 <= j < windows@.len() ==> is_instant(#[trigger] windows@[j].center + 2 * DAY_MS),
            forall|j: int| 0 <= j < windows@.len() ==> is_instant(#[trigger] windows@[j].center as int),
            forall|j: int|
                0 <= j < i && windows@[j].kind == SolunarPeriod::Major ==> !window_hits(
                    #[trigger] windows@[j],
                    start as int,
                    end as int,
                ),
            saw_minor <==> exists|j: int|
                0 <= j < i && windows@[j].kind != SolunarPeriod::Major && window_hits(
                    #[trigger] windows@[j],
                    start as int,
                    end as int,
                ),
        decreases windows.len() - i,
    {
        let w = windows[i];
        let c0 = w.center;
        let c1 = w.center + DAY_MS;
        let c2 = w.center + 2 * DAY_MS;
        let hit = (start <= c0 && c0 < end) || (start <= c1 && c1 < end) || (start <= c2 && c2 < end);
        assert(hit == window_hits(windows@[i as int], start as int, end as int));
        if hit && w.kind == SolunarPeriod::Major {
            return SolunarPeriod::Major;
        }
        if hit {
            saw_minor = true;
        }
        i = i + 1;
    }
    if saw_minor {
        SolunarPeriod::Minor
    } else {
        SolunarPeriod::Neutral
    }
}

// ---------------------------------------------------------------------------
// Day/night spans of the next 48 hours
// ---------------------------------------------------------------------------

#[derive(Clone, Copy, Debug, PartialEq, Eq, Structural)]
pub enum Phase {
    Day,
    Night,
}

/// The outlook covers the 48 hours from now.
pub const OUTLOOK_HORIZON_MS: i64 = 172800000;

/// Spans shorter than an hour are not shown.
pub const MIN_SPAN_MS: i64 = 3600000;

pub open spec fn day_label_text(n: int) -> Seq<char> {
    if n == 0 {
        "Today"@
    } else if n == 1 {
        "Tomorrow"@
    } else {
        "In two days"@
    }
}

pub open spec fn night_label_text(n: int) -> Seq<char> {
    if n == 0 {
        "Tonight"@
    } else if n == 1 {
        "Tomorrow night"@
    } else {
        "In two nights"@
    }
}

pub fn day_label(ordinal: usize) -> (r: &'static str)
    ensures
        r@ == day_label_text(ordinal as int),
{
    match ordinal {
        0 => "Today",
        1 => "Tomorrow",
        _ => "In two days",
    }
}

pub fn night_label(ordinal: usize) -> (r: &'static str)
    ensures
        r@ == night_label_text(ordinal as int),
{
    match ordinal {
        0 => "Tonight",
        1 => "Tomorrow night",
        _ => "In two nights",
    }
}

/// The `j`-th day/night boundary: yesterday's sunset, then today's sunrise
/// and sunset, then the same shifted by one and two whole days.
pub open spec fn boundary_time(sunrise: int, sunset: int, j: int) -> int {
    if j == 0 {
        sunset - DAY_MS
    } else if j == 1 {
        sunrise
    } else if j == 2 {
        sunset
    } else if j == 3 {
        sunrise + DAY_MS
    } else if j == 4 {
        sunset + DAY_MS
    } else if j == 5 {
        sunrise + 2 * DAY_MS
    } else {
        sunset + 2 * DAY_MS
    }
}

/// Boundaries at sunsets open nights; those at sunrises open days.
pub open spec fn boundary_phase(j: int) -> Phase {
    if j % 2 == 0 {
        Phase::Night
    } else {
        Phase::Day
    }
}

pub struct SpanView {
    pub label: Seq<char>,
    pub phase: Phase,
    pub start: int,
    pub end: int,
}

pub struct SpanState {
    pub days: int,
    pub nights: int,
    pub spans: Seq<SpanView>,
    pub done: bool,
}

pub open spec fn max_int(a: int, b: int) -> int {
    if a >= b {
        a
    } else {
        b
    }
}

pub open spec fn min_int(a: int, b: int) -> int {
    if a <= b {
        a
    } else {
        b
    }
}

/// Processes the span between boundaries `j` and `j + 1`: stop once it
/// starts at or past the horizon, skip it when it ended by `now`, else clip
/// it to `[now, horizon]`, label it by the count of days or nights seen
/// so far, and keep it when it lasts at least an hour.
pub open spec fn span_step(now: int, sunrise: int, sunset: int, st: SpanState, j: int) -> SpanState {
    let start = boundary_time(sunrise, sunset, j);
    let end = boundary_time(sunrise, sunset, j + 1);
    let horizon = now + OUTLOOK_HORIZON_MS;
    if start >= horizon {
        SpanState { days: st.days, nights: st.nights, spans: st.spans, done: true }
    } else if end <= now {
        st
    } else {
        let cs = max_int(start, now);
        let ce = min_int(end, horizon);
        let phase = boundary_phase(j);
        let label = if phase == Phase::Day {
            day_label_text(st.days)
        } else {
            night_label_text(st.nights)
        };
        let days = if phase == Phase::Day {
            st.days + 1
        } else {
            st.days
        };
        let nights = if phase == Phase::Night {
            st.nights + 1
        } else {
            st.nights
        };
        let spans = if ce - cs >= MIN_SPAN_MS {
            st.spans.push(SpanView { label, phase, start: cs, end: ce })
        } else {
            st.spans
        };
        SpanState { days, nights, spans, done: false }
    }
}

pub open spec fn span_state(now: int, sunrise: int, sunset: int, k: int) -> SpanState
    decreases k,
{
    if k <= 0 {
        SpanState { days: 0, nights: 0, spans: Seq::empty(), done: false }
    } else {
        let st = span_state(now, sunrise, sunset, k - 1);
        if st.done {
            st
        } else {
            span_step(now, sunrise, sunset, st, k - 1)
        }
    }
}

/// The labelled day/night spans covering `[now, now + 48h)`.
pub open spec fn spans_of(now: int, sunrise: int, sunset: int) -> Seq<SpanView> {
    span_state(now, sunrise, sunset, 6).spans
}

pub open spec fn span_view(t: (String, Phase, i64, i64)) -> SpanView {
    SpanView { label: t.0@, phase: t.1, start: t.2 as int, end: t.3 as int }
}

/// Days last at least an hour and nights too.
pub open spec fn day_and_night_last_an_hour(sunrise: int, sunset: int) -> bool {
    MIN_SPAN_MS <= sunset - sunrise <= DAY_MS - MIN_SPAN_MS
}

/// Each span ends where the next one starts.
pub open spec fn contiguous(spans: Seq<SpanView>) -> bool {
    forall|i: int| 0 <= i < spans.len() - 1 ==> #[trigger] spans[i].end == spans[i + 1].start
}

/// The instants the boundaries and the horizon need to be representable.
pub open spec fn spans_representable(now: int, sunrise: int, sunset: int) -> bool {
    &&& is_instant(now)
    &&& is_instant(now + OUTLOOK_HORIZON_MS)
    &&& is_instant(sunrise)
    &&& is_instant(sunrise + 2 * DAY_MS)
    &&& is_instant(sunset)
    &&& is_instant(sunset - DAY_MS)
    &&& is_instant(sunset + 2 * DAY_MS)
}

proof fn lemma_done_is_final(now: int, sunrise: int, sunset: int, k: int, m: int)
    requires
        0 <= k <= m,
        span_state(now, sunrise, sunset, k).done,
    ensures
        span_state(now, sunrise, sunset, m) == span_state(now, sunrise, sunset, k),
    decreases m - k,
{
    if m > k {
        lemma_done_is_final(now, sunrise, sunset, k, m - 1);
    }
}

/// 0 for "Today"/"Tonight", 1 for "Tomorrow"/"Tomorrow night", 2 after.
pub open spec fn label_ordinal(l: Seq<char>) -> int {
    if l == day_label_text(0) || l == night_label_text(0) {
        0
    } else if l == day_label_text(1) || l == night_label_text(1) {
        1
    } else {
        2
    }
}

/// What the day/night spans look like on a day whose sunset is still
/// ahead (now between yesterday's and today's sunset), when days and
/// nights both last an hour: there is at least one span, days and nights
/// alternate, the first span starts within the hour after now, the last
/// ends past now + 47h, each span is labelled by its phase, and the labels
/// of each phase run forward (Today, Tomorrow, In two days; Tonight,
/// Tomorrow night, In two nights).
pub open spec fn well_laid_out(spans: Seq<SpanView>, now: int) -> bool {
    &&& spans.len() > 0
    &&& forall|i: int| 0 <= i < spans.len() - 1 ==> (#[trigger] spans[i]).phase != spans[i + 1].phase
    &&& now <= spans[0].start < now + MIN_SPAN_MS
    &&& now + OUTLOOK_HORIZON_MS - MIN_SPAN_MS < spans.last().end <= now + OUTLOOK_HORIZON_MS
    &&& forall|i: int|
        0 <= i < spans.len() ==> (#[trigger] spans[i]).label == (if spans[i].phase == Phase::Day {
            day_label_text(label_ordinal(spans[i].label))
        } else {
            night_label_text(label_ordinal(spans[i].label))
        })
    &&& forall|i: int, j: int|
        0 <= i < j < spans.len() && spans[i].phase == spans[j].phase ==> label_ordinal(
            #[trigger] spans[i].label,
        ) < label_ordinal(#[trigger] spans[j].label)
}

proof fn lemma_label_texts()
    ensures
        label_ordinal(day_label_text(0)) == 0,
        label_ordinal(day_label_text(1)) == 1,
        label_ordinal(day_label_text(2)) == 2,
        label_ordinal(night_label_text(0)) == 0,
        label_ordinal(night_label_text(1)) == 1,
        label_ordinal(night_label_text(2)) == 2,
{
    reveal_strlit("Today");
    reveal_strlit("Tomorrow");
    reveal_strlit("In two days");
    reveal_strlit("Tonight");
    reveal_strlit("Tomorrow night");
    reveal_strlit("In two nights");
    assert(day_label_text(0).len() == 5);
    assert(night_label_text(0).len() == 7);
    assert(day_label_text(1).len() == 8);
    assert(night_label_text(1).len() == 14);
    assert(day_label_text(2).len() == 11);
    assert(night_label_text(2).len() == 13);
    assert(day_label_text(2) != day_label_text(0));
    assert(day_label_text(2) != night_label_text(0));
    assert(day_label_text(2) != day_label_text(1));
    assert(day_label_text(2) != night_label_text(1));
    assert(night_label_text(2) != day_label_text(0));
    assert(night_label_text(2) != night_label_text(0));
    assert(night_label_text(2) != day_label_text(1));
    assert(night_label_text(2) != night_label_text(1));
    assert(day_label_text(1) != day_label_text(0));
    assert(day_label_text(1) != night_label_text(0));
    assert(night_label_text(1) != day_label_text(0));
    assert(night_label_text(1) != night_label_text(0));
}

proof fn lemma_spans_unrolled(now: int, sunrise: int, sunset: int)
    requires
        day_and_night_last_an_hour(sunrise, sunset),
        sunset - DAY_MS <= now <= sunset,
    ensures
        !span_state(now, sunrise, sunset, 4).done,
        span_state(now, sunrise, sunset, 1) == span_step(now, sunrise, sunset, span_state(now, sunrise, sunset, 0), 0),
        span_state(now, sunrise, sunset, 2) == span_step(now, sunrise, sunset, span_state(now, sunrise, sunset, 1), 1),
        span_state(now, sunrise, sunset, 3) == span_step(now, sunrise, sunset, span_state(now, sunrise, sunset, 2), 2),
        span_state(now, sunrise, sunset, 4) == span_step(now, sunrise, sunset, span_state(now, sunrise, sunset, 3), 3),
        !span_state(now, sunrise, sunset, 4).done ==> span_state(now, sunrise, sunset, 5) == span_step(
            now,
            sunrise,
            sunset,
            span_state(now, sunrise, sunset, 4),
            4,
        ),
        !span_state(now, sunrise, sunset, 5).done ==> span_state(now, sunrise, sunset, 6) == span_step(
            now,
            sunrise,
            sunset,
            span_state(now, sunrise, sunset, 5),
            5,
        ),
        span_state(now, sunrise, sunset, 5).done ==> span_state(now, sunrise, sunset, 6) == span_state(now, sunrise, sunset, 5),
{
    let st0 = span_state(now, sunrise, sunset, 0);
    let st1 = span_state(now, sunrise, sunset, 1);
    let st2 = span_state(now, sunrise, sunset, 2);
    let st3 = span_state(now, sunrise, sunset, 3);
    assert(!st0.done);
    assert(st1 == span_step(now, sunrise, sunset, st0, 0));
    assert(!st1.done);
    assert(st2 == span_step(now, sunrise, sunset, st1, 1));
    assert(!st2.done);
    assert(st3 == span_step(now, sunrise, sunset, st2, 2));
    assert(!st3.done);
    assert(span_state(now, sunrise, sunset, 4) == span_step(now, sunrise, sunset, st3, 3));
}

#[verifier::rlimit(40)]
proof fn lemma_layout_before_sunrise(now: int, sunrise: int, sunset: int)
    requires
        day_and_night_last_an_hour(sunrise, sunset),
        sunset - DAY_MS <= now < sunrise,
    ensures
        well_laid_out(spans_of(now, sunrise, sunset), now),
{
    lemma_label_texts();
    lemma_spans_unrolled(now, sunrise, sunset);
    let st4 = span_state(now, sunrise, sunset, 4);
    let st5 = span_state(now, sunrise, sunset, 5);
    let h = now + OUTLOOK_HORIZON_MS;
    let sr = sunrise;
    let ss = sunset;
    let d = DAY_MS;
    let n0 = SpanView { label: night_label_text(0), phase: Phase::Night, start: now, end: sr };
    let d1 = SpanView { label: day_label_text(0), phase: Phase::Day, start: sr, end: ss };
    let n2 = SpanView { label: night_label_text(1), phase: Phase::Night, start: ss, end: sr + d };
    let d3 = SpanView { label: day_label_text(1), phase: Phase::Day, start: sr + d, end: ss + d };
    let n4 = SpanView { label: night_label_text(2), phase: Phase::Night, start: ss + d, end: h };
    let first: Seq<SpanView> = if sr - now >= MIN_SPAN_MS { seq![n0] } else { Seq::empty() };
    assert(st4.spans =~= first + seq![d1, n2, d3]);
    assert(!st4.done);
    let sp = spans_of(now, sunrise, sunset);
    if ss + d >= h {
        assert(st5.done);
        assert(sp == st4.spans);
        if sr - now >= MIN_SPAN_MS {
            assert(sp =~= seq![n0, d1, n2, d3]);
        } else {
            assert(sp =~= seq![d1, n2, d3]);
        }
    } else {
        assert(!st5.done);
        let last: Seq<SpanView> = if h - (ss + d) >= MIN_SPAN_MS { seq![n4] } else { Seq::empty() };
        assert(st5.spans =~= first + seq![d1, n2, d3] + last);
        assert(sp == st5.spans);
        if sr - now >= MIN_SPAN_MS {
            if h - (ss + d) >= MIN_SPAN_MS {
                assert(sp =~= seq![n0, d1, n2, d3, n4]);
            } else {
                assert(sp =~= seq![n0, d1, n2, d3]);
            }
        } else {
            if h - (ss + d) >= MIN_SPAN_MS {
                assert(sp =~= seq![d1, n2, d3, n4]);
            } else {
                assert(sp =~= seq![d1, n2, d3]);
            }
        }
    }
}

#[verifier::rlimit(40)]
proof fn lemma_layout_after_sunrise(now: int, sunrise: int, sunset: int)
    requires
        day_and_night_last_an_hour(sunrise, sunset),
        sunrise <= now <= sunset,
    ensures
        well_laid_out(spans_of(now, sunrise, sunset), now),
{
    lemma_label_texts();
    lemma_spans_unrolled(now, sunrise, sunset);
    let st4 = span_state(now, sunrise, sunset, 4);
    let st5 = span_state(now, sunrise, sunset, 5);
    let h = now + OUTLOOK_HORIZON_MS;
    let sr = sunrise;
    let ss = sunset;
    let d = DAY_MS;
    let day_counted = now < ss;
    let d1 = SpanView { label: day_label_text(0), phase: Phase::Day, start: now, end: ss };
    let n2 = SpanView { label: night_label_text(0), phase: Phase::Night, start: ss, end: sr + d };
    let k3 = if day_counted { 1int } else { 0 };
    let d3 = SpanView { label: day_label_text(k3), phase: Phase::Day, start: sr + d, end: ss + d };
    let n4 = SpanView { label: night_label_text(1), phase: Phase::Night, start: ss + d, end: sr + 2 * d };
    let d5 = SpanView { label: day_label_text(k3 + 1), phase: Phase::Day, start: sr + 2 * d, end: h };
    let first: Seq<SpanView> = if day_counted && ss - now >= MIN_SPAN_MS { seq![d1] } else { Seq::empty() };
    assert(st4.spans =~= first + seq![n2, d3]);
    assert(!st4.done);
    assert(st5.spans =~= first + seq![n2, d3, n4]);
    let sp = spans_of(now, sunrise, sunset);
    if sr + 2 * d >= h {
        assert(sp == st5.spans);
        if day_counted && ss - now >= MIN_SPAN_MS {
            assert(sp =~= seq![d1, n2, d3, n4]);
        } else {
            assert(sp =~= seq![n2, d3, n4]);
        }
    } else {
        assert(!st5.done);
        let last: Seq<SpanView> = if h - (sr + 2 * d) >= MIN_SPAN_MS { seq![d5] } else { Seq::empty() };
        assert(sp =~= first + seq![n2, d3, n4] + last);
        if day_counted && ss - now >= MIN_SPAN_MS {
            if h - (sr + 2 * d) >= MIN_SPAN_MS {
                assert(sp =~= seq![d1, n2, d3, n4, d5]);
            } else {
                assert(sp =~= seq![d1, n2, d3, n4]);
            }
        } else {
            if h - (sr + 2 * d) >= MIN_SPAN_MS {
                assert(sp =~= seq![n2, d3, n4, d5]);
            } else {
                assert(sp =~= seq![n2, d3, n4]);
            }
        }
    }
}

/// The day/night layout law: with days and nights of an hour or more and
/// now no earlier than yesterday's sunset and no later than today's, the
/// spans are laid out as `well_laid_out` says.
/// The day/night layout law: with days and nights of an hour or more and
/// now no earlier than yesterday's sunset and no later than today's, the
/// spans are laid out as `well_laid_out` says.
pub proof fn spans_are_well_laid_out(now: int, sunrise: int, sunset: int)
    requires
        day_and_night_last_an_hour(sunrise, sunset),
        sunset - DAY_MS <= now <= sunset,
    ensures
        well_laid_out(spans_of(now, sunrise, sunset), now),
{
    if now < sunrise {
        lemma_layout_before_sunrise(now, sunrise, sunset);
    } else {
        lemma_layout_after_sunrise(now, sunrise, sunset);
    }
}

fn boundary(sunrise: i64, sunset: i64, j: usize) -> (r: (i64, Phase))
    requires
        j <= 6,
        is_instant(sunrise as int),
        is_instant(sunrise + 2 * DAY_MS),
        is_instant(sunset as int),
        is_instant(sunset - DAY_MS),
        is_instant(sunset + 2 * DAY_MS),
    ensures
        r.0 == boundary_time(sunrise as int, sunset as int, j as int),
        r.1 == boundary_phase(j as int),
{
    match j {
        0 => (sunset - DAY_MS, Phase::Night),
        1 => (sunrise, Phase::Day),
        2 => (sunset, Phase::Night),
        3 => (sunrise + DAY_MS, Phase::Day),
        4 => (sunset + DAY_MS, Phase::Night),
        5 => (sunrise + 2 * DAY_MS, Phase::Day),
        _ => (sunset + 2 * DAY_MS, Phase::Night),
    }
}

/// Builds day/night-aligned spans covering [now, now+48h), labeled relative
/// to "now" (Today/Tonight/Tomorrow/Tomorrow night). Future sunrises and
/// sunsets are today's shifted by whole days - they drift only ~1-2min/day.
/// Every span lies within the horizon and lasts at least an hour; when days
/// and nights both last an hour or more, the spans are contiguous.
pub fn build_windows(now: i64, sunrise_today: i64, sunset_today: i64) -> (r: Vec<
    (String, Phase, i64, i64),
>)
    requires
        spans_representable(now as int, sunrise_today as int, sunset_today as int),
    ensures
        r@.map_values(|t: (String, Phase, i64, i64)| span_view(t)) == spans_of(
            now as int,
            sunrise_today as int,
            sunset_today as int,
        ),
        forall|i: int|
            0 <= i < r@.len() ==> now <= #[trigger] r@[i].2 && r@[i].3 <= now + OUTLOOK_HORIZON_MS
                && r@[i].3 - r@[i].2 >= MIN_SPAN_MS,
        day_and_night_last_an_hour(sunrise_today as int, sunset_today as int) ==> contiguous(
            spans_of(now as int, sunrise_today as int, sunset_today as int),
        ),
{
    let ghost sr = sunrise_today as int;
    let ghost ss = sunset_today as int;
    let horizon = now + OUTLOOK_HORIZON_MS;
    let mut day_count: usize = 0;
    let mut night_count: usize = 0;
    let mut windows: Vec<(String, Phase, i64, i64)> = Vec::new();
    let mut done = false;
    let mut j: usize = 0;
    assert(windows@.map_values(|t: (String, Phase, i64, i64)| span_view(t)) =~= Seq::<SpanView>::empty());
    while j < 6 && !done
        invariant
            j <= 6,
            spans_representable(now as int, sr, ss),
            sr == sunrise_today,
            ss == sunset_today,
            horizon == now + OUTLOOK_HORIZON_MS,
            day_count <= j,
            night_count <= j,
            span_state(now as int, sr, ss, j as int) == (SpanState {
                days: day_count as int,
                nights: night_count as int,
                spans: windows@.map_values(|t: (String, Phase, i64, i64)| span_view(t)),
                done,
            }),
            forall|i: int|
                0 <= i < windows@.len() ==> now <= #[trigger] windows@[i].2 && windows@[i].3
                    <= horizon && windows@[i].3 - windows@[i].2 >= MIN_SPAN_MS,
            day_and_night_last_an_hour(sr, ss) ==> contiguous(
                windows@.map_values(|t: (String, Phase, i64, i64)| span_view(t)),
            ),
            day_and_night_last_an_hour(sr, ss) && windows@.len() > 0 && !done ==> (
            windows@.last().3 == min_int(boundary_time(sr, ss, j as int), horizon as int)
                || boundary_time(sr, ss, j as int) >= horizon),
        decreases 6 - j,
    {
        let ghost views = windows@.map_values(|t: (String, Phase, i64, i64)| span_view(t));
        let (start, phase) = boundary(sunrise_today, sunset_today, j);
        let (end, _) = boundary(sunrise_today, sunset_today, j + 1);
        if start >= horizon {
            done = true;
        } else if end <= now {
            proof {
                if day_and_night_last_an_hour(sr, ss) && windows@.len() > 0 {
                    assert(windows@[windows@.len() - 1].3 - windows@[windows@.len() - 1].2 >= MIN_SPAN_MS);
                }
            }
        } else {
            let clipped_start = if start > now {
                start
            } else {
                now
            };
            let clipped_end = if end < horizon {
                end
            } else {
                horizon
            };
            let label = match phase {
                Phase::Day => {
                    let l = day_label(day_count);
                    day_count = day_count + 1;
                    l
                },
                Phase::Night => {
                    let l = night_label(night_count);
                    night_count = night_count + 1;
                    l
                },
            };
            if clipped_end - clipped_start >= MIN_SPAN_MS {
                proof {
                    if day_and_night_last_an_hour(sr, ss) && windows@.len() > 0 {
                        assert(windows@[windows@.len() - 1].3 - windows@[windows@.len() - 1].2 >= MIN_SPAN_MS);
                    }
                }
                windows.push((label.to_owned(), phase, clipped_start, clipped_end));
                proof {
                    let nv = windows@.map_values(|t: (String, Phase, i64, i64)| span_view(t));
                    assert(nv =~= views.push(span_view(windows@.last())));
                    if day_and_night_last_an_hour(sr, ss) {
                        assert forall|i: int| 0 <= i < nv.len() - 1 implies #[trigger] nv[i].end == nv[i + 1].start by {
                            if i < nv.len() - 2 {
                                assert(nv[i] == views[i]);
                                assert(nv[i + 1] == views[i + 1]);
                            }
                        }
                    }
                }
            } else {
                proof {
                    if day_and_night_last_an_hour(sr, ss) && windows@.len() > 0 {
                        assert(windows@[windows@.len() - 1].3 - windows@[windows@.len() - 1].2 >= MIN_SPAN_MS);
                    }
                }
            }
        }
        j = j + 1;
    }
    proof {
        if done {
            lemma_done_is_final(now as int, sr, ss, j as int, 6);
        }
    }
    windows
}

// ---------------------------------------------------------------------------
// The 48 hour outlook
// ---------------------------------------------------------------------------

/// A labelled span of the outlook with its quality.
#[derive(Debug)]
pub struct OutlookWindow {
    pub label: String,
    pub start: i64,
    pub end: i64,
    pub quality: FishingQuality,
}

/// General conditions favorability: `now` is `None` without enough signal;
/// `next_48h` is empty when weather or solunar data was not available.
#[derive(Debug)]
pub struct FishingOutlook {
    pub now: Option<FishingQuality>,
    pub next_48h: Vec<OutlookWindow>,
}

pub struct OutlookView {
    pub label: Seq<char>,
    pub start: int,
    pub end: int,
    pub quality: FishingQuality,
}

impl View for OutlookWindow {
    type V = OutlookView;

    open spec fn view(&self) -> OutlookView {
        OutlookView {
            label: self.label@,
            start: self.start as int,
            end: self.end as int,
            quality: self.quality,
        }
    }
}

/// A pressure swing of 1.5 mb (in hundredths) between consecutive spans.
pub const SPAN_PRESSURE_SWING: i32 = 150;

/// Trend from the previous span's mean pressure to this one's, both given
/// as (total, count): down by 1.5 mb or more is falling, up by as much
/// rising, else stable.
pub open spec fn span_pressure_trend(this: (int, int), prev: (int, int)) -> PressureTrend {
    if fraction_order(this.0, this.1, prev.0 - SPAN_PRESSURE_SWING * prev.1, prev.1) <= 0 {
        PressureTrend::Falling
    } else if fraction_order(this.0, this.1, prev.0 + SPAN_PRESSURE_SWING * prev.1, prev.1)
        >= 0 {
        PressureTrend::Rising
    } else {
        PressureTrend::Stable
    }
}

/// Span to span, by mean pressure (totals over counts, in hundredths of a
/// millibar): 1.5 mb or more down is `Falling`, else 1.5 mb or more up is
/// `Rising`, else `Stable`.
pub proof fn span_pressure_law(this: (int, int), prev: (int, int))
    requires
        this.1 > 0,
        prev.1 > 0,
    ensures
        span_pressure_trend(this, prev) == PressureTrend::Falling <==> this.0 * prev.1 <= prev.0 * this.1
            - 150 * (prev.1 * this.1),
        span_pressure_trend(this, prev) == PressureTrend::Rising <==> this.0 * prev.1 > prev.0 * this.1 - 150
            * (prev.1 * this.1) && this.0 * prev.1 >= prev.0 * this.1 + 150 * (prev.1 * this.1),
{
    assert((prev.0 - 150 * prev.1) * this.1 == prev.0 * this.1 - 150 * (prev.1 * this.1)) by (nonlinear_arith);
    assert((prev.0 + 150 * prev.1) * this.1 == prev.0 * this.1 + 150 * (prev.1 * this.1)) by (nonlinear_arith);
}

/// The mean pressure carried into the next span: this span's when it has
/// forecast hours, else the previous one.
pub open spec fn carried_pressure(ps: Seq<HourlyForecastPoint>, prev: Option<(int, int)>) -> Option<
    (int, int),
> {
    if ps.len() > 0 {
        Some((pressure_total(ps), ps.len() as int))
    } else {
        prev
    }
}

/// The factors of a span: pressure trend against the previous span, the
/// span's majority sky and mean wind, its solunar overlap and the season.
pub open spec fn span_points(
    ps: Seq<HourlyForecastPoint>,
    prev: Option<(int, int)>,
    w: SpanView,
    solunar: Seq<SolunarWindow>,
    season: Option<SeasonPhase>,
) -> QualityPoints {
    let this = carried_pressure(ps, prev);
    let trend = match (prev, this) {
        (Some(p), Some(t)) => Some(span_pressure_trend(t, p)),
        _ => None,
    };
    let is_daytime = w.phase == Phase::Day;
    let sky = majority_sky_of(ps);
    let n = ps.len() as int;
    QualityPoints {
        pressure_trend: trend,
        temp_trend: None,
        light_bonus: !is_daytime || sky == Some(Sky::Overcast),
        calm_and_bright: is_daytime && sky == Some(Sky::Clear) && n > 0 && wind_total(ps) < 500
            * n,
        wind_moderate: n > 0 && 1000 * n <= wind_total(ps) < 1800 * n,
        solunar_period: Some(solunar_period_in(solunar, w.start, w.end)),
        season_phase: season,
    }
}

pub open spec fn outlook_state(
    fs: Seq<HourlyForecastPoint>,
    prev0: Option<(int, int)>,
    spans: Seq<SpanView>,
    solunar: Seq<SolunarWindow>,
    season: Option<SeasonPhase>,
    k: int,
) -> (Seq<OutlookView>, Option<(int, int)>)
    decreases k,
{
    if k <= 0 {
        (Seq::empty(), prev0)
    } else {
        let (acc, prev) = outlook_state(fs, prev0, spans, solunar, season, k - 1);
        let w = spans[k - 1];
        let ps = points_in(fs, w.start, w.end);
        let q = bucket_of(score_of(span_points(ps, prev, w, solunar, season)));
        (
            acc.push(OutlookView { label: w.label, start: w.start, end: w.end, quality: q }),
            carried_pressure(ps, prev),
        )
    }
}

/// The outlook over the spans of the next 48 hours.
pub open spec fn outlook_of(
    fs: Seq<HourlyForecastPoint>,
    current_pressure: Option<i32>,
    sunrise: int,
    sunset: int,
    solunar: Seq<SolunarWindow>,
    season: Option<SeasonPhase>,
    now: int,
) -> Seq<OutlookView> {
    let spans = spans_of(now, sunrise, sunset);
    let prev0 = match current_pressure {
        Some(v) => Some((v as int, 1int)),
        None => None,
    };
    outlook_state(fs, prev0, spans, solunar, season, spans.len() as int).0
}

proof fn lemma_outlook_state_follows_spans(
    fs: Seq<HourlyForecastPoint>,
    prev0: Option<(int, int)>,
    spans: Seq<SpanView>,
    solunar: Seq<SolunarWindow>,
    season: Option<SeasonPhase>,
    k: int,
)
    requires
        0 <= k <= spans.len(),
    ensures
        outlook_state(fs, prev0, spans, solunar, season, k).0.len() == k,
        forall|i: int|
            0 <= i < k ==> (#[trigger] outlook_state(fs, prev0, spans, solunar, season, k).0[i]).label
                == spans[i].label && outlook_state(fs, prev0, spans, solunar, season, k).0[i].start
                == spans[i].start && outlook_state(fs, prev0, spans, solunar, season, k).0[i].end
                == spans[i].end,
    decreases k,
{
    if k > 0 {
        lemma_outlook_state_follows_spans(fs, prev0, spans, solunar, season, k - 1);
    }
}

/// The outlook has one entry per day/night span, with that span's label,
/// start and end, whatever the forecast, pressure, solunar windows and
/// season.
pub proof fn outlook_follows_the_spans(
    fs: Seq<HourlyForecastPoint>,
    current_pressure: Option<i32>,
    sunrise: int,
    sunset: int,
    solunar: Seq<SolunarWindow>,
    season: Option<SeasonPhase>,
    now: int,
)
    ensures
        outlook_of(fs, current_pressure, sunrise, sunset, solunar, season, now).len() == spans_of(
            now,
            sunrise,
            sunset,
        ).len(),
        forall|i: int|
            0 <= i < spans_of(now, sunrise, sunset).len() ==> (#[trigger] outlook_of(
                fs,
                current_pressure,
                sunrise,
                sunset,
                solunar,
                season,
                now,
            )[i]).label == spans_of(now, sunrise, sunset)[i].label && outlook_of(
                fs,
                current_pressure,
                sunrise,
                sunset,
                solunar,
                season,
                now,
            )[i].start == spans_of(now, sunrise, sunset)[i].start && outlook_of(
                fs,
                current_pressure,
                sunrise,
                sunset,
                solunar,
                season,
                now,
            )[i].end == spans_of(now, sunrise, sunset)[i].end,
{
    let spans = spans_of(now, sunrise, sunset);
    let prev0 = match current_pressure {
        Some(v) => Some((v as int, 1int)),
        None => None,
    };
    lemma_outlook_state_follows_spans(fs, prev0, spans, solunar, season, spans.len() as int);
}

/// A forecast hour outside `[lo, hi)` is not among that span's hours.
proof fn lemma_points_in_skips_outside(fs: Seq<HourlyForecastPoint>, p: int, x: HourlyForecastPoint, lo: int, hi: int)
    requires
        0 <= p <= fs.len(),
        !(lo <= x.time < hi),
    ensures
        points_in(fs.insert(p, x), lo, hi) == points_in(fs, lo, hi),
    decreases fs.len(),
{
    if p == fs.len() {
        assert(fs.insert(p, x).drop_last() =~= fs);
    } else {
        lemma_points_in_skips_outside(fs.drop_last(), p, x, lo, hi);
        assert(fs.insert(p, x).drop_last() =~= fs.drop_last().insert(p, x));
        assert(fs.insert(p, x).last() == fs.last());
    }
}

proof fn lemma_outlook_state_reads_span_points(
    fs: Seq<HourlyForecastPoint>,
    gs: Seq<HourlyForecastPoint>,
    prev0: Option<(int, int)>,
    spans: Seq<SpanView>,
    solunar: Seq<SolunarWindow>,
    season: Option<SeasonPhase>,
    k: int,
)
    requires
        0 <= k <= spans.len(),
        forall|i: int|
            0 <= i < k ==> points_in(gs, (#[trigger] spans[i]).start, spans[i].end) == points_in(
                fs,
                spans[i].start,
                spans[i].end,
            ),
    ensures
        outlook_state(gs, prev0, spans, solunar, season, k) == outlook_state(fs, prev0, spans, solunar, season, k),
    decreases k,
{
    if k > 0 {
        lemma_outlook_state_reads_span_points(fs, gs, prev0, spans, solunar, season, k - 1);
        assert(points_in(gs, spans[k - 1].start, spans[k - 1].end) == points_in(
            fs,
            spans[k - 1].start,
            spans[k - 1].end,
        ));
    }
}

/// A forecast hour that falls in none of the spans does not change the
/// outlook (wherever it stands in the forecast).
pub proof fn outlook_ignores_hours_outside_the_spans(
    fs: Seq<HourlyForecastPoint>,
    p: int,
    x: HourlyForecastPoint,
    current_pressure: Option<i32>,
    sunrise: int,
    sunset: int,
    solunar: Seq<SolunarWindow>,
    season: Option<SeasonPhase>,
    now: int,
)
    requires
        0 <= p <= fs.len(),
        forall|i: int|
            0 <= i < spans_of(now, sunrise, sunset).len() ==> !((#[trigger] spans_of(now, sunrise, sunset)[i]).start
                <= x.time < spans_of(now, sunrise, sunset)[i].end),
    ensures
        outlook_of(fs.insert(p, x), current_pressure, sunrise, sunset, solunar, season, now)
            == outlook_of(fs, current_pressure, sunrise, sunset, solunar, season, now),
{
    let spans = spans_of(now, sunrise, sunset);
    let prev0 = match current_pressure {
        Some(v) => Some((v as int, 1int)),
        None => None,
    };
    assert forall|i: int| 0 <= i < spans.len() implies points_in(
        fs.insert(p, x),
        (#[trigger] spans[i]).start,
        spans[i].end,
    ) == points_in(fs, spans[i].start, spans[i].end) by {
        lemma_points_in_skips_outside(fs, p, x, spans[i].start, spans[i].end);
    }
    lemma_outlook_state_reads_span_points(fs, fs.insert(p, x), prev0, spans, solunar, season, spans.len() as int);
}

/// A carried mean: positive count, total within the count's range.
pub open spec fn carried_ok(p: Option<(i128, u64)>) -> bool {
    p matches Some(v) ==> v.1 >= 1 && -(v.1 * ITEM_BOUND) <= v.0 <= v.1 * ITEM_BOUND
}

pub open spec fn carried_int(p: Option<(i128, u64)>) -> Option<(int, int)> {
    match p {
        Some(v) => Some((v.0 as int, v.1 as int)),
        None => None,
    }
}

fn span_trend(this: (i128, u64), prev: (i128, u64)) -> (r: PressureTrend)
    requires
        carried_ok(Some(this)),
        carried_ok(Some(prev)),
    ensures
        r == span_pressure_trend((this.0 as int, this.1 as int), (prev.0 as int, prev.1 as int)),
{
    proof {
        assert(prev.1 * ITEM_BOUND <= 0xffff_ffff_ffff_ffff * ITEM_BOUND) by (nonlinear_arith)
            requires prev.1 <= 0xffff_ffff_ffff_ffff;
        assert(this.1 * ITEM_BOUND <= 0xffff_ffff_ffff_ffff * ITEM_BOUND) by (nonlinear_arith)
            requires this.1 <= 0xffff_ffff_ffff_ffff;
    }
    let swing = SPAN_PRESSURE_SWING as i128;
    if compare_fractions(this.0, this.1, prev.0 - swing * (prev.1 as i128), prev.1) <= 0 {
        PressureTrend::Falling
    } else if compare_fractions(this.0, this.1, prev.0 + swing * (prev.1 as i128), prev.1) >= 0 {
        PressureTrend::Rising
    } else {
        PressureTrend::Stable
    }
}

/// Builds the 48h outlook. `current_pressure_mb` anchors the first span's
/// pressure-trend comparison.
pub fn outlook_48h(
    forecast: &[HourlyForecastPoint],
    current_pressure_mb: Option<i32>,
    sunrise_today: i64,
    sunset_today: i64,
    todays_solunar_windows: &[SolunarWindow],
    season_phase: Option<SeasonPhase>,
    now: i64,
) -> (r: Vec<OutlookWindow>)
    requires
        spans_representable(now as int, sunrise_today as int, sunset_today as int),
        forall|i: int|
            0 <= i < todays_solunar_windows@.len() ==> is_instant(
                #[trigger] todays_solunar_windows@[i].center + 2 * DAY_MS,
            ),
        forall|i: int|
            0 <= i < todays_solunar_windows@.len() ==> is_instant(
                #[trigger] todays_solunar_windows@[i].center as int,
            ),
    ensures
        r@.map_values(|w: OutlookWindow| w@) == outlook_of(
            forecast@,
            current_pressure_mb,
            sunrise_today as int,
            sunset_today as int,
            todays_solunar_windows@,
            season_phase,
            now as int,
        ),
{
    let windows = build_windows(now, sunrise_today, sunset_today);
    let ghost spans = spans_of(now as int, sunrise_today as int, sunset_today as int);
    let mut prev_pressure: Option<(i128, u64)> = match current_pressure_mb {
        Some(v) => Some((v as i128, 1)),
        None => None,
    };
    let ghost prev0 = carried_int(prev_pressure);
    let mut result: Vec<OutlookWindow> = Vec::new();
    let mut k: usize = 0;
    while k < windows.len()
        invariant
            k <= windows@.len(),
            windows@.map_values(|t: (String, Phase, i64, i64)| span_view(t)) == spans,
            carried_ok(prev_pressure),
            forall|i: int|
                0 <= i < todays_solunar_windows@.len() ==> is_instant(
                    #[trigger] todays_solunar_windows@[i].center + 2 * DAY_MS,
                ),
            forall|i: int|
                0 <= i < todays_solunar_windows@.len() ==> is_instant(
                    #[trigger] todays_solunar_windows@[i].center as int,
                ),
            outlook_state(forecast@, prev0, spans, todays_solunar_windows@, season_phase, k as int)
                == (result@.map_values(|w: OutlookWindow| w@), carried_int(prev_pressure)),
        decreases windows.len() - k,
    {
        let (label, phase, start, end) = (&windows[k].0, windows[k].1, windows[k].2, windows[k].3);
        let ghost w = spans[k as int];
        let ghost prev_before = carried_int(prev_pressure);
        proof {
            assert(w == span_view(windows@[k as int]));
        }
        let points = select_points(forecast, start, end);
        proof {
            lemma_totals_bounded(points@);
            lemma_points_in_len(forecast@, start as int, end as int);
        }
        let np = points.len();
        let mean_p = mean_pressure(points.as_slice());
        let this_pressure = match mean_p {
            Some(m) => Some(m),
            None => prev_pressure,
        };
        proof {
            assert(np == points@.len());
            if points@.len() > 0 {
                assert(points@.len() * ITEM_BOUND <= 0xffff_ffff_ffff_ffff * ITEM_BOUND) by (nonlinear_arith)
                    requires points@.len() <= 0xffff_ffff_ffff_ffff;
            }
            assert(carried_int(this_pressure) == carried_pressure(points@, carried_int(prev_pressure)));
        }
        let pressure_trend = match (prev_pressure, this_pressure) {
            (Some(p), Some(t)) => Some(span_trend(t, p)),
            _ => None,
        };
        prev_pressure = this_pressure;

        let is_daytime = match phase {
            Phase::Day => true,
            Phase::Night => false,
        };
        let sky = majority_sky(points.as_slice());
        let wind = mean_wind(points.as_slice());
        let clear = match sky {
            Some(Sky::Clear) => true,
            _ => false,
        };
        let overcast = match sky {
            Some(Sky::Overcast) => true,
            _ => false,
        };
        let (calm, moderate) = match wind {
            Some((total, n)) => {
                let n = n as i128;
                (total < 500 * n, 1000 * n <= total && total < 1800 * n)
            },
            None => (false, false),
        };
        let solunar_period = solunar_period_for(todays_solunar_windows, start, end);
        let points_struct = QualityPoints {
            pressure_trend,
            temp_trend: None,
            light_bonus: !is_daytime || overcast,
            calm_and_bright: is_daytime && clear && calm,
            wind_moderate: moderate,
            solunar_period: Some(solunar_period),
            season_phase,
        };
        proof {
            assert(points_struct == span_points(
                points@,
                prev_before,
                w,
                todays_solunar_windows@,
                season_phase,
            ));
        }
        let quality = bucket(score_points(&points_struct));
        result.push(OutlookWindow { label: label.clone(), start, end, quality });
        proof {
            assert(result@.map_values(|w: OutlookWindow| w@) =~= outlook_state(
                forecast@,
                prev0,
                spans,
                todays_solunar_windows@,
                season_phase,
                k as int,
            ).0.push(result@.last()@));
        }
        k = k + 1;
    }
    proof {
        assert(spans.len() == windows@.len());
    }
    result
}

/// The season phase resolved for now, if any.
pub open spec fn season_now(c: ResolvedConditions) -> Option<SeasonPhase> {
    match c.season_phase {
        Some(r) => Some(r.value),
        None => None,
    }
}

/// The current pressure, if resolved.
pub open spec fn pressure_now(c: ResolvedConditions) -> Option<i32> {
    match c.pressure_mb {
        Some(r) => Some(r.value),
        None => None,
    }
}

/// The instants a 48h outlook needs to be representable.
pub open spec fn outlook_representable(s: SunMoonSnapshot, now: int) -> bool {
    &&& spans_representable(now, s.sunrise as int, s.sunset as int)
    &&& forall|i: int|
        0 <= i < s.solunar_windows@.len() ==> is_instant(#[trigger] s.solunar_windows@[i].center as int)
            && is_instant(s.solunar_windows@[i].center + 2 * DAY_MS)
}

/// The favorability read: `now` from the resolved conditions; the 48h
/// spans only when both a forecast and the sun and moon times are known,
/// never partially.
pub fn fishing_outlook(
    c: &ResolvedConditions,
    forecast: &Option<Vec<HourlyForecastPoint>>,
    sun_moon: &Option<SunMoonSnapshot>,
    now: i64,
) -> (r: FishingOutlook)
    requires
        *sun_moon matches Some(s) ==> outlook_representable(s, now as int),
    ensures
        r.now == quality_now_of(*c),
        match (*forecast, *sun_moon) {
            (Some(f), Some(s)) => r.next_48h@.map_values(|w: OutlookWindow| w@) == outlook_of(
                f@,
                pressure_now(*c),
                s.sunrise as int,
                s.sunset as int,
                s.solunar_windows@,
                season_now(*c),
                now as int,
            ),
            _ => r.next_48h@.len() == 0,
        },
{
    let quality = quality_now(c);
    let next_48h = match (forecast, sun_moon) {
        (Some(f), Some(s)) => {
            let current_pressure = match &c.pressure_mb {
                Some(r) => Some(r.value),
                None => None,
            };
            let season = match &c.season_phase {
                Some(r) => Some(r.value),
                None => None,
            };
            outlook_48h(
                f.as_slice(),
                current_pressure,
                s.sunrise,
                s.sunset,
                s.solunar_windows.as_slice(),
                season,
                now,
            )
        },
        _ => Vec::new(),
    };
    FishingOutlook { now: quality, next_48h }
}

} // verus!
