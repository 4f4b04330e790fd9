//! The shared vocabulary of conditions, and the derived classifications:
//! pressure trend, temperature trend, season phase and time of day.
//!
//! Measurements are fixed-point integers: temperatures in hundredths of a
//! degree Fahrenheit, pressures in hundredths of a millibar, wind speeds in
//! hundredths of a mile per hour, wind directions in hundredths of a degree,
//! flows in hundredths of a cubic foot per second. Instants are milliseconds
//! since the Unix epoch (see `calendar`).
use vstd::prelude::*;
use crate::calendar::{is_instant, CalendarDate, LATEST_INSTANT_MS};
use crate::numeric::{compare_fractions, fraction_order, sign_of, ITEM_BOUND};
use crate::solunar::SunMoonSnapshot;
use crate::water::WaterSnapshot;
use crate::weather::WeatherSnapshot;

verus! {

/// Where a resolved value came from.
#[derive(Clone, Copy, Debug, PartialEq, Eq, Structural)]
pub enum Source {
    Fetched,
    Provided,
    Derived,
}

/// A value together with its source.
#[derive(Clone, Copy, Debug)]
pub struct Resolved<T> {
    pub value: T,
    pub source: Source,
}

impl<T> Resolved<T> {
    pub fn new(value: T, source: Source) -> (r: Self)
        ensures
            r.value == value,
            r.source == source,
    {
        Resolved { value, source }
    }
}

/// `None` is the "unknown" state: no source, not supplied.
pub type Field<T> = Option<Resolved<T>>;

#[derive(Clone, Copy, Debug, PartialEq, Eq, Structural)]
pub enum SeasonPhase {
    Winter,
    PreSpawn,
    Spawn,
    PostSpawn,
    Summer,
    Fall,
}

#[derive(Clone, Copy, Debug, PartialEq, Eq, Structural)]
pub enum PressureTrend {
    Falling,
    Rising,
    Stable,
}

#[derive(Clone, Copy, Debug, PartialEq, Eq, Structural)]
pub enum TempTrend {
    Stable,
    Warming,
    Cooling,
    ColdFrontRecent,
    RecoveringFromFront,
}

#[derive(Clone, Copy, Debug, PartialEq, Eq, Structural)]
pub enum WaterClarity {
    Clear,
    Stained,
    Muddy,
}

#[derive(Clone, Copy, Debug, PartialEq, Eq, Structural)]
pub enum WaterBodyType {
    Pond,
    NaturalLake,
    Reservoir,
    River,
}

#[derive(Clone, Copy, Debug, PartialEq, Eq, Structural)]
pub enum WaterLevelTrend {
    Rising,
    Falling,
    Stable,
}

#[derive(Clone, Copy, Debug, PartialEq, Eq, Structural)]
pub enum Cover {
    Vegetation,
    Laydowns,
    Riprap,
    Docks,
    Timber,
    NoneKnown,
}

#[derive(Clone, Copy, Debug, PartialEq, Eq, Structural)]
pub enum SolunarPeriod {
    Major,
    Minor,
    Neutral,
}

#[derive(Clone, Copy, Debug, PartialEq, Eq, Structural)]
pub enum TimeOfDay {
    Dawn,
    Day,
    Dusk,
    Night,
}

#[derive(Clone, Copy, Debug, PartialEq, Eq, Structural)]
pub enum Sky {
    Clear,
    PartlyCloudy,
    Overcast,
}

#[derive(Clone, Copy, Debug, PartialEq, Eq, Structural)]
pub enum PrecipRecent {
    /// No meaningful precipitation (the wire name is `none`).
    Dry,
    Light,
    Heavy,
}

/// Every condition after resolution; fixed-point units as in the module
/// documentation.
#[derive(Debug)]
pub struct ResolvedConditions {
    pub air_temp_f: Field<i32>,
    pub sky: Field<Sky>,
    pub wind_mph: Field<i32>,
    pub wind_direction_deg: Field<i32>,
    pub pressure_mb: Field<i32>,
    pub precip_recent: Field<PrecipRecent>,
    pub pressure_trend: Field<PressureTrend>,
    pub temp_trend: Field<TempTrend>,
    pub water_temp_f: Field<i32>,
    pub water_level_trend: Field<WaterLevelTrend>,
    pub flow_cfs: Field<i32>,
    pub solunar_period: Field<SolunarPeriod>,
    pub time_of_day: Field<TimeOfDay>,
    pub season_phase: Field<SeasonPhase>,
    pub water_clarity: Field<WaterClarity>,
    pub water_body_type: Field<WaterBodyType>,
    pub cover: Field<Vec<Cover>>,
}

impl ResolvedConditions {
    /// Every field unknown.
    pub open spec fn is_all_unknown(self) -> bool {
        &&& self.air_temp_f is None
        &&& self.sky is None
        &&& self.wind_mph is None
        &&& self.wind_direction_deg is None
        &&& self.pressure_mb is None
        &&& self.precip_recent is None
        &&& self.pressure_trend is None
        &&& self.temp_trend is None
        &&& self.water_temp_f is None
        &&& self.water_level_trend is None
        &&& self.flow_cfs is None
        &&& self.solunar_period is None
        &&& self.time_of_day is None
        &&& self.season_phase is None
        &&& self.water_clarity is None
        &&& self.water_body_type is None
        &&& self.cover is None
    }
}

impl Default for ResolvedConditions {
    fn default() -> (r: Self)
        ensures
            r.is_all_unknown(),
    {
        ResolvedConditions {
            air_temp_f: None,
            sky: None,
            wind_mph: None,
            wind_direction_deg: None,
            pressure_mb: None,
            precip_recent: None,
            pressure_trend: None,
            temp_trend: None,
            water_temp_f: None,
            water_level_trend: None,
            flow_cfs: None,
            solunar_period: None,
            time_of_day: None,
            season_phase: None,
            water_clarity: None,
            water_body_type: None,
            cover: None,
        }
    }
}

/// Caller-supplied overrides. Any set field wins over its live-fetched
/// counterpart; clarity, water body type and cover come only from here.
#[derive(Debug)]
pub struct ConditionOverrides {
    pub water_clarity: Option<WaterClarity>,
    pub water_body_type: Option<WaterBodyType>,
    pub cover: Option<Vec<Cover>>,
    pub water_temp_f: Option<i32>,
    pub water_level_trend: Option<WaterLevelTrend>,
    pub air_temp_f: Option<i32>,
}

impl Default for ConditionOverrides {
    fn default() -> (r: Self)
        ensures
            r.water_clarity is None,
            r.water_body_type is None,
            r.cover is None,
            r.water_temp_f is None,
            r.water_level_trend is None,
            r.air_temp_f is None,
    {
        ConditionOverrides {
            water_clarity: None,
            water_body_type: None,
            cover: None,
            water_temp_f: None,
            water_level_trend: None,
            air_temp_f: None,
        }
    }
}

// ---------------------------------------------------------------------------
// Time of day
// ---------------------------------------------------------------------------

/// Dawn runs from 45 minutes before to 30 minutes after sunrise.
pub const DAWN_LEAD_MS: i64 = 2700000;

pub const DAWN_TRAIL_MS: i64 = 1800000;

/// Dusk runs from 30 minutes before to 45 minutes after sunset.
pub const DUSK_LEAD_MS: i64 = 1800000;

pub const DUSK_TRAIL_MS: i64 = 2700000;

pub open spec fn time_of_day_at(sunrise: int, sunset: int, now: int) -> TimeOfDay {
    let dawn_start = sunrise - DAWN_LEAD_MS;
    let dawn_end = sunrise + DAWN_TRAIL_MS;
    let dusk_start = sunset - DUSK_LEAD_MS;
    let dusk_end = sunset + DUSK_TRAIL_MS;
    if dawn_start <= now <= dawn_end {
        TimeOfDay::Dawn
    } else if dusk_start <= now <= dusk_end {
        TimeOfDay::Dusk
    } else if dawn_end < now < dusk_start {
        TimeOfDay::Day
    } else {
        TimeOfDay::Night
    }
}

/// Dawn runs from 45 minutes before sunrise to 30 minutes after it, dusk
/// from 30 minutes before sunset to 45 minutes after it (dawn wins where
/// they meet); between them it is day, and outside them night.
pub proof fn time_of_day_law(sunrise: int, sunset: int, now: int)
    ensures
        sunrise - 2700000 <= now <= sunrise + 1800000 ==> time_of_day_at(sunrise, sunset, now)
            == TimeOfDay::Dawn,
        !(sunrise - 2700000 <= now <= sunrise + 1800000) && sunset - 1800000 <= now <= sunset
            + 2700000 ==> time_of_day_at(sunrise, sunset, now) == TimeOfDay::Dusk,
        time_of_day_at(sunrise, sunset, now) == TimeOfDay::Day <==> sunrise + 1800000 < now < sunset
            - 1800000,
        time_of_day_at(sunrise, sunset, now) == TimeOfDay::Night ==> !(sunrise - 2700000 <= now
            <= sunset + 2700000),
{
}

/// Dawn/dusk windows are 45min before to 30min after sunrise, and 30min
/// before to 45min after sunset - slightly asymmetric since low-light bass
/// activity builds before sunrise and lingers after sunset.
pub fn classify_time_of_day(sunrise: i64, sunset: i64, now: i64) -> (r: TimeOfDay)
    requires
        is_instant(sunrise - DAWN_LEAD_MS),
        is_instant(sunrise + DAWN_TRAIL_MS),
        is_instant(sunset - DUSK_LEAD_MS),
        is_instant(sunset + DUSK_TRAIL_MS),
    ensures
        r == time_of_day_at(sunrise as int, sunset as int, now as int),
{
    let dawn_start = sunrise - DAWN_LEAD_MS;
    let dawn_end = sunrise + DAWN_TRAIL_MS;
    let dusk_start = sunset - DUSK_LEAD_MS;
    let dusk_end = sunset + DUSK_TRAIL_MS;
    if now >= dawn_start && now <= dawn_end {
        TimeOfDay::Dawn
    } else if now >= dusk_start && now <= dusk_end {
        TimeOfDay::Dusk
    } else if now > dawn_end && now < dusk_start {
        TimeOfDay::Day
    } else {
        TimeOfDay::Night
    }
}

// ---------------------------------------------------------------------------
// Pressure trend
// ---------------------------------------------------------------------------

/// A pressure reading: an instant and hundredths of a millibar.
#[derive(Clone, Copy, Debug)]
pub struct PressurePoint {
    pub time: i64,
    pub pressure_mb: i32,
}

/// A daily mean temperature, in hundredths of a degree Fahrenheit.
#[derive(Clone, Copy, Debug)]
pub struct TempPoint {
    pub date: CalendarDate,
    pub mean_temp_f: i32,
}

/// The recent window spans the last 6 hours; the prior window runs from 42
/// to 24 hours before the latest reading.
pub const RECENT_WINDOW_MS: i64 = 21600000;

pub const PRIOR_WINDOW_START_MS: i64 = 151200000;

pub const PRIOR_WINDOW_END_MS: i64 = 86400000;

/// A pressure swing of 2 mb (in hundredths) between the windows' means.
pub const PRESSURE_SWING: i32 = 200;

/// Latest time among the readings.
pub open spec fn latest_time(ps: Seq<PressurePoint>) -> int
    decreases ps.len(),
{
    if ps.len() == 0 {
        0
    } else if ps.len() == 1 {
        ps[0].time as int
    } else {
        let m = latest_time(ps.drop_last());
        if ps.last().time > m {
            ps.last().time as int
        } else {
            m
        }
    }
}

/// Sum of the pressures read at instants in `[lo, hi)`.
pub open spec fn pressure_sum_in(ps: Seq<PressurePoint>, lo: int, hi: int) -> int
    decreases ps.len(),
{
    if ps.len() == 0 {
        0
    } else {
        pressure_sum_in(ps.drop_last(), lo, hi) + if lo <= ps.last().time < hi {
            ps.last().pressure_mb as int
        } else {
            0
        }
    }
}

/// Number of readings at instants in `[lo, hi)`.
pub open spec fn pressure_count_in(ps: Seq<PressurePoint>, lo: int, hi: int) -> int
    decreases ps.len(),
{
    if ps.len() == 0 {
        0
    } else {
        pressure_count_in(ps.drop_last(), lo, hi) + if lo <= ps.last().time < hi {
            1int
        } else {
            0
        }
    }
}

/// Index of the first reading with the lowest pressure.
pub open spec fn first_lowest_index(ps: Seq<PressurePoint>) -> int
    decreases ps.len(),
{
    if ps.len() <= 1 {
        0
    } else {
        let k = first_lowest_index(ps.drop_last());
        if ps.last().pressure_mb < ps[k].pressure_mb {
            ps.len() - 1
        } else {
            k
        }
    }
}

/// Sign of `(mean of the readings in [lo1, hi1)) - (mean of those in
/// [lo2, hi2)) - swing`, both windows being non-empty.
pub open spec fn mean_shift_order(
    ps: Seq<PressurePoint>,
    lo1: int,
    hi1: int,
    lo2: int,
    hi2: int,
    swing: int,
) -> i8 {
    fraction_order(
        pressure_sum_in(ps, lo1, hi1),
        pressure_count_in(ps, lo1, hi1),
        pressure_sum_in(ps, lo2, hi2) + swing * pressure_count_in(ps, lo2, hi2),
        pressure_count_in(ps, lo2, hi2),
    )
}

/// The pressure trend the readings show: `Falling` when the recent mean is
/// at least 2 mb below the prior mean; `Rising` when it is at least 2 mb
/// above and the lowest reading came before the recent window; otherwise
/// `Stable`. `None` when either window is empty.
pub open spec fn pressure_trend_of(ps: Seq<PressurePoint>) -> Option<PressureTrend> {
    if ps.len() == 0 {
        None
    } else {
        let now = latest_time(ps);
        let recent_lo = now - RECENT_WINDOW_MS;
        let recent_hi = LATEST_INSTANT_MS + 1;
        let prior_lo = now - PRIOR_WINDOW_START_MS;
        let prior_hi = now - PRIOR_WINDOW_END_MS;
        if pressure_count_in(ps, recent_lo, recent_hi) == 0 || pressure_count_in(
            ps,
            prior_lo,
            prior_hi,
        ) == 0 {
            None
        } else if mean_shift_order(ps, recent_lo, recent_hi, prior_lo, prior_hi, -(PRESSURE_SWING as int))
            <= 0 {
            Some(PressureTrend::Falling)
        } else if mean_shift_order(ps, recent_lo, recent_hi, prior_lo, prior_hi, PRESSURE_SWING as int)
            >= 0 && ps[first_lowest_index(ps)].time < recent_lo {
            Some(PressureTrend::Rising)
        } else {
            Some(PressureTrend::Stable)
        }
    }
}

proof fn lemma_latest_time_bounds(ps: Seq<PressurePoint>)
    requires
        ps.len() > 0,
    ensures
        forall|i: int| 0 <= i < ps.len() ==> ps[i].time <= latest_time(ps),
        exists|i: int| 0 <= i < ps.len() && ps[i].time == latest_time(ps),
    decreases ps.len(),
{
    if ps.len() > 1 {
        lemma_latest_time_bounds(ps.drop_last());
        let k = choose|i: int| 0 <= i < ps.drop_last().len() && ps.drop_last()[i].time == latest_time(ps.drop_last());
        assert(ps[k] == ps.drop_last()[k]);
        assert forall|i: int| 0 <= i < ps.len() implies ps[i].time <= latest_time(ps) by {
            if i < ps.len() - 1 {
                assert(ps[i] == ps.drop_last()[i]);
            }
        }
        if ps.last().time > latest_time(ps.drop_last()) {
            assert(ps[ps.len() - 1].time == latest_time(ps));
        } else {
            assert(ps[k].time == latest_time(ps));
        }
    } else {
        assert(ps[0].time == latest_time(ps));
    }
}

proof fn lemma_window_bounds(ps: Seq<PressurePoint>, lo: int, hi: int)
    ensures
        0 <= pressure_count_in(ps, lo, hi) <= ps.len(),
        -(pressure_count_in(ps, lo, hi) * ITEM_BOUND) <= pressure_sum_in(ps, lo, hi)
            <= pressure_count_in(ps, lo, hi) * ITEM_BOUND,
    decreases ps.len(),
{
    if ps.len() > 0 {
        lemma_window_bounds(ps.drop_last(), lo, hi);
    }
}

/// Sum and count of the pressures read at instants in `[lo, hi)`.
fn pressure_window(points: &[PressurePoint], lo: i64, hi: i64) -> (r: (i128, u64))
    ensures
        r.0 == pressure_sum_in(points@, lo as int, hi as int),
        r.1 == pressure_count_in(points@, lo as int, hi as int),
{
    let mut sum: i128 = 0;
    let mut count: u64 = 0;
    let mut i: usize = 0;
    while i < points.len()
        invariant
            i <= points@.len(),
            sum == pressure_sum_in(points@.take(i as int), lo as int, hi as int),
            count == pressure_count_in(points@.take(i as int), lo as int, hi as int),
        decreases points.len() - i,
    {
        proof {
            lemma_window_bounds(points@.take(i as int), lo as int, hi as int);
            assert(points@.take(i as int + 1).drop_last() =~= points@.take(i as int));
        }
        let p = points[i];
        if lo <= p.time && p.time < hi {
            sum = sum + p.pressure_mb as i128;
            count = count + 1;
        }
        i = i + 1;
    }
    proof {
        assert(points@.take(i as int) =~= points@);
    }
    (sum, count)
}

proof fn lemma_first_lowest(ps: Seq<PressurePoint>)
    requires
        ps.len() > 0,
    ensures
        0 <= first_lowest_index(ps) < ps.len(),
        forall|j: int| 0 <= j < ps.len() ==> ps[first_lowest_index(ps)].pressure_mb <= #[trigger] ps[j].pressure_mb,
        forall|j: int| 0 <= j < first_lowest_index(ps) ==> #[trigger] ps[j].pressure_mb > ps[first_lowest_index(ps)].pressure_mb,
    decreases ps.len(),
{
    if ps.len() > 1 {
        let d = ps.drop_last();
        lemma_first_lowest(d);
        assert forall|j: int| 0 <= j < d.len() implies #[trigger] ps[j] == d[j] by {}
    }
}

proof fn lemma_count_nonnegative(ps: Seq<PressurePoint>, lo: int, hi: int)
    ensures
        pressure_count_in(ps, lo, hi) >= 0,
    decreases ps.len(),
{
    if ps.len() > 0 {
        lemma_count_nonnegative(ps.drop_last(), lo, hi);
    }
}

proof fn lemma_pressure_trend_cases(ps: Seq<PressurePoint>)
    requires
        ps.len() > 0,
    ensures
        ({
            let now = latest_time(ps);
            let nr = pressure_count_in(ps, now - RECENT_WINDOW_MS, LATEST_INSTANT_MS + 1);
            let np = pressure_count_in(ps, now - PRIOR_WINDOW_START_MS, now - PRIOR_WINDOW_END_MS);
            let mf = mean_shift_order(
                ps,
                now - RECENT_WINDOW_MS,
                LATEST_INSTANT_MS + 1,
                now - PRIOR_WINDOW_START_MS,
                now - PRIOR_WINDOW_END_MS,
                -(PRESSURE_SWING as int),
            );
            let mr = mean_shift_order(
                ps,
                now - RECENT_WINDOW_MS,
                LATEST_INSTANT_MS + 1,
                now - PRIOR_WINDOW_START_MS,
                now - PRIOR_WINDOW_END_MS,
                PRESSURE_SWING as int,
            );
            &&& (pressure_trend_of(ps) is None <==> nr == 0 || np == 0)
            &&& (pressure_trend_of(ps) == Some(PressureTrend::Falling) <==> nr != 0 && np != 0 && mf <= 0)
            &&& (pressure_trend_of(ps) == Some(PressureTrend::Rising) <==> nr != 0 && np != 0 && !(mf <= 0)
                && mr >= 0 && ps[first_lowest_index(ps)].time < now - RECENT_WINDOW_MS)
        }),
{
}

/// The first reading of the lowest pressure: no reading is lower and every
/// earlier one is higher.
pub open spec fn is_first_lowest(ps: Seq<PressurePoint>, k: int) -> bool {
    &&& 0 <= k < ps.len()
    &&& forall|j: int| 0 <= j < ps.len() ==> ps[k].pressure_mb <= #[trigger] ps[j].pressure_mb
    &&& forall|j: int| 0 <= j < k ==> #[trigger] ps[j].pressure_mb > ps[k].pressure_mb
}

/// The pressure trend law. With `now` the latest reading's time, the
/// recent readings those of the last 6 hours and the prior ones those from
/// 42 to 24 hours before `now`: no trend without readings in both windows;
/// `Falling` exactly when the recent mean is at least 2 mb (200
/// hundredths) below the prior mean; `Rising` exactly when it is not
/// falling, the recent mean is at least 2 mb above the prior mean, and the
/// first lowest reading came before the recent window; else `Stable`.
pub proof fn pressure_trend_law(ps: Seq<PressurePoint>, k: int)
    requires
        ps.len() > 0,
        is_first_lowest(ps, k),
    ensures
        ({
            let now = latest_time(ps);
            let nr = pressure_count_in(ps, now - 21600000, LATEST_INSTANT_MS + 1);
            let sr = pressure_sum_in(ps, now - 21600000, LATEST_INSTANT_MS + 1);
            let np = pressure_count_in(ps, now - 151200000, now - 86400000);
            let sp = pressure_sum_in(ps, now - 151200000, now - 86400000);
            let falling = sr * np <= (sp - 200 * np) * nr;
            let rising = sr * np >= (sp + 200 * np) * nr;
            &&& (pressure_trend_of(ps) is None <==> nr == 0 || np == 0)
            &&& (pressure_trend_of(ps) == Some(PressureTrend::Falling) <==> nr > 0 && np > 0 && falling)
            &&& (pressure_trend_of(ps) == Some(PressureTrend::Rising) <==> nr > 0 && np > 0 && !falling
                && rising && ps[k].time < now - 21600000)
        }),
{
    lemma_first_lowest(ps);
    lemma_pressure_trend_cases(ps);
    let now = latest_time(ps);
    lemma_count_nonnegative(ps, now - 21600000, LATEST_INSTANT_MS + 1);
    lemma_count_nonnegative(ps, now - 151200000, now - 86400000);
    let nr = pressure_count_in(ps, now - 21600000, LATEST_INSTANT_MS + 1);
    let sr = pressure_sum_in(ps, now - 21600000, LATEST_INSTANT_MS + 1);
    let np = pressure_count_in(ps, now - 151200000, now - 86400000);
    let sp = pressure_sum_in(ps, now - 151200000, now - 86400000);
    assert((sp + (-200) * np) * nr == (sp - 200 * np) * nr) by (nonlinear_arith);
    // the first lowest reading is unique
    let f = first_lowest_index(ps);
    if f < k {
        assert(ps[f].pressure_mb > ps[k].pressure_mb);
    } else if k < f {
        assert(ps[k].pressure_mb > ps[f].pressure_mb);
    }
}

/// Falling >=2mb over the last 6h vs. the 6h window 24-42h back is the
/// classic pre-frontal signal; a matching rise after a low in the trailing
/// 48h is the post-frontal signal.
pub fn classify_pressure_trend(points: &[PressurePoint]) -> (r: Option<PressureTrend>)
    requires
        forall|i: int| 0 <= i < points@.len() ==> is_instant(#[trigger] points@[i].time as int),
        points@.len() > 0 ==> is_instant(latest_time(points@) - PRIOR_WINDOW_START_MS),
    ensures
        r == pressure_trend_of(points@),
{
    if points.len() == 0 {
        return None;
    }
    let mut now: i64 = points[0].time;
    let mut i: usize = 1;
    while i < points.len()
        invariant
            1 <= i <= points@.len(),
            now == latest_time(points@.take(i as int)),
        decreases points.len() - i,
    {
        proof {
            assert(points@.take(i as int + 1).drop_last() =~= points@.take(i as int));
        }
        if points[i].time > now {
            now = points[i].time;
        }
        i = i + 1;
    }
    proof {
        assert(points@.take(i as int) =~= points@);
        lemma_latest_time_bounds(points@);
    }
    let recent_lo = now - RECENT_WINDOW_MS;
    let recent_hi = LATEST_INSTANT_MS + 1;
    let prior_lo = now - PRIOR_WINDOW_START_MS;
    let prior_hi = now - PRIOR_WINDOW_END_MS;
    let (recent_sum, recent_count) = pressure_window(points, recent_lo, recent_hi);
    let (prior_sum, prior_count) = pressure_window(points, prior_lo, prior_hi);
    if recent_count == 0 || prior_count == 0 {
        return None;
    }
    proof {
        lemma_window_bounds(points@, recent_lo as int, recent_hi as int);
        lemma_window_bounds(points@, prior_lo as int, prior_hi as int);
        assert(prior_count * ITEM_BOUND <= 0xffff_ffff_ffff_ffff * ITEM_BOUND) by (nonlinear_arith)
            requires prior_count <= 0xffff_ffff_ffff_ffff;
        assert(recent_count * ITEM_BOUND <= 0xffff_ffff_ffff_ffff * ITEM_BOUND) by (nonlinear_arith)
            requires recent_count <= 0xffff_ffff_ffff_ffff;
    }
    let swing = PRESSURE_SWING as i128;
    let falling = compare_fractions(
        recent_sum,
        recent_count,
        prior_sum - swing * (prior_count as i128),
        prior_count,
    );
    if falling <= 0 {
        return Some(PressureTrend::Falling);
    }
    let rising = compare_fractions(
        recent_sum,
        recent_count,
        prior_sum + swing * (prior_count as i128),
        prior_count,
    );
    if rising >= 0 {
        let mut k: usize = 0;
        let mut j: usize = 1;
        while j < points.len()
            invariant
                1 <= j <= points@.len(),
                k == first_lowest_index(points@.take(j as int)),
                0 <= k < j,
            decreases points.len() - j,
        {
            proof {
                assert(points@.take(j as int + 1).drop_last() =~= points@.take(j as int));
            }
            if points[j].pressure_mb < points[k].pressure_mb {
                k = j;
            }
            j = j + 1;
        }
        proof {
            assert(points@.take(j as int) =~= points@);
        }
        if points[k].time < recent_lo {
            return Some(PressureTrend::Rising);
        }
    }
    Some(PressureTrend::Stable)
}

// ---------------------------------------------------------------------------
// Temperature trend
// ---------------------------------------------------------------------------

/// Three times the difference between the mean of the last three readings
/// and the mean of the three before them (hundredths of a degree).
pub open spec fn temp_shift3(ps: Seq<TempPoint>) -> int {
    let n = ps.len() as int;
    (ps[n - 1].mean_temp_f + ps[n - 2].mean_temp_f + ps[n - 3].mean_temp_f) - (ps[n
        - 4].mean_temp_f + ps[n - 5].mean_temp_f + ps[n - 6].mean_temp_f)
}

pub open spec fn min3(a: int, b: int, c: int) -> int {
    if a <= b && a <= c {
        a
    } else if b <= c {
        b
    } else {
        c
    }
}

/// The trailing six days split into two three-day windows, compared by
/// mean: a shift under 4F is `Stable`; 4F to 8F up is `Warming` and down is
/// `Cooling`; 8F or more up is `Warming`; a drop of 8F or more is
/// `RecoveringFromFront` when the mean of the last two days sits at least
/// 2F above the recent window's low, else `ColdFrontRecent`. `None` with
/// fewer than six readings. (Thresholds are scaled by three and by 100.)
pub open spec fn temp_trend_of(ps: Seq<TempPoint>) -> Option<TempTrend> {
    if ps.len() < 6 {
        None
    } else {
        let d3 = temp_shift3(ps);
        let n = ps.len() as int;
        if -1200 < d3 < 1200 {
            Some(TempTrend::Stable)
        } else if 1200 <= d3 < 2400 {
            Some(TempTrend::Warming)
        } else if -2400 < d3 <= -1200 {
            Some(TempTrend::Cooling)
        } else if d3 >= 2400 {
            Some(TempTrend::Warming)
        } else {
            let low = min3(
                ps[n - 3].mean_temp_f as int,
                ps[n - 2].mean_temp_f as int,
                ps[n - 1].mean_temp_f as int,
            );
            if ps[n - 2].mean_temp_f + ps[n - 1].mean_temp_f - 2 * low >= 400 {
                Some(TempTrend::RecoveringFromFront)
            } else {
                Some(TempTrend::ColdFrontRecent)
            }
        }
    }
}

/// The temperature trend by the shift between the three-day means (`d3`
/// is three times the shift, in hundredths of a degree): a shift under 4F
/// either way is `Stable`, 4F up or more `Warming`, 4F down up to (not
/// including) 8F `Cooling`, and 8F down or more a front (`ColdFrontRecent`
/// or `RecoveringFromFront`). Only the last six readings count, and
/// adding the same amount to all of them changes nothing.
pub proof fn temp_trend_law(ps: Seq<TempPoint>, qs: Seq<TempPoint>, c: int)
    requires
        ps.len() >= 6,
        qs.len() >= 6,
        forall|i: int|
            1 <= i <= 6 ==> (#[trigger] qs[qs.len() - i]).mean_temp_f == ps[ps.len() - i].mean_temp_f + c,
    ensures
        ({
            let n = ps.len() as int;
            let d3 = (ps[n - 1].mean_temp_f + ps[n - 2].mean_temp_f + ps[n - 3].mean_temp_f) - (ps[n
                - 4].mean_temp_f + ps[n - 5].mean_temp_f + ps[n - 6].mean_temp_f);
            &&& (-1200 < d3 < 1200 <==> temp_trend_of(ps) == Some(TempTrend::Stable))
            &&& (d3 >= 1200 <==> temp_trend_of(ps) == Some(TempTrend::Warming))
            &&& (-2400 < d3 <= -1200 <==> temp_trend_of(ps) == Some(TempTrend::Cooling))
            &&& (d3 <= -2400 <==> (temp_trend_of(ps) == Some(TempTrend::ColdFrontRecent)
                || temp_trend_of(ps) == Some(TempTrend::RecoveringFromFront)))
        }),
        temp_trend_of(qs) == temp_trend_of(ps),
{
    let n = ps.len() as int;
    let m = qs.len() as int;
    assert(qs[m - 1].mean_temp_f == ps[n - 1].mean_temp_f + c);
    assert(qs[m - 2].mean_temp_f == ps[n - 2].mean_temp_f + c);
    assert(qs[m - 3].mean_temp_f == ps[n - 3].mean_temp_f + c);
    assert(qs[m - 4].mean_temp_f == ps[n - 4].mean_temp_f + c);
    assert(qs[m - 5].mean_temp_f == ps[n - 5].mean_temp_f + c);
    assert(qs[m - 6].mean_temp_f == ps[n - 6].mean_temp_f + c);
}

/// Fewer than six readings give no temperature trend.
pub proof fn temp_trend_needs_six_days(ps: Seq<TempPoint>)
    ensures
        ps.len() < 6 <==> temp_trend_of(ps) is None,
{
}

/// Trailing 6 days split into two 3-day windows; thresholds sourced from
/// real cold-front water-temp-drop reporting (3-5F typical, 6-8F+ strong).
/// `points` must be ordered oldest -> newest.
pub fn classify_temp_trend(points: &[TempPoint]) -> (r: Option<TempTrend>)
    ensures
        r == temp_trend_of(points@),
{
    if points.len() < 6 {
        return None;
    }
    let n = points.len();
    let r0 = points[n - 3].mean_temp_f as i64;
    let r1 = points[n - 2].mean_temp_f as i64;
    let r2 = points[n - 1].mean_temp_f as i64;
    let e0 = points[n - 6].mean_temp_f as i64;
    let e1 = points[n - 5].mean_temp_f as i64;
    let e2 = points[n - 4].mean_temp_f as i64;
    let d3 = (r0 + r1 + r2) - (e0 + e1 + e2);
    if -1200 < d3 && d3 < 1200 {
        return Some(TempTrend::Stable);
    }
    if 1200 <= d3 && d3 < 2400 {
        return Some(TempTrend::Warming);
    }
    if -2400 < d3 && d3 <= -1200 {
        return Some(TempTrend::Cooling);
    }
    if d3 >= 2400 {
        return Some(TempTrend::Warming);
    }
    let low = if r0 <= r1 && r0 <= r2 {
        r0
    } else if r1 <= r2 {
        r1
    } else {
        r2
    };
    if r1 + r2 - 2 * low >= 400 {
        Some(TempTrend::RecoveringFromFront)
    } else {
        Some(TempTrend::ColdFrontRecent)
    }
}

// ---------------------------------------------------------------------------
// Season phase
// ---------------------------------------------------------------------------

/// Days of the year before the calendar's midpoint count as the spring side.
pub const MIDYEAR_ORDINAL: u32 = 182;

/// Temperatures inside the spawn range are `Spawn`. Above it, cooling
/// trends mean `Fall` and warming ones `PostSpawn`; below it, warming means
/// `PreSpawn` and cooling `Winter`. A stable or unknown trend falls back to
/// the calendar: the first half of the year is the spring side.
pub open spec fn season_phase_of(
    temp_f: int,
    spawn_lo: int,
    spawn_hi: int,
    trend: Option<TempTrend>,
    ordinal: int,
) -> SeasonPhase {
    let spring_side = ordinal < MIDYEAR_ORDINAL;
    if spawn_lo <= temp_f <= spawn_hi {
        SeasonPhase::Spawn
    } else if temp_f > spawn_hi {
        match trend {
            Some(TempTrend::Cooling) | Some(TempTrend::ColdFrontRecent) => SeasonPhase::Fall,
            Some(TempTrend::Warming) | Some(TempTrend::RecoveringFromFront) => SeasonPhase::PostSpawn,
            _ => if spring_side {
                SeasonPhase::PostSpawn
            } else {
                SeasonPhase::Summer
            },
        }
    } else {
        match trend {
            Some(TempTrend::Warming) | Some(TempTrend::RecoveringFromFront) => SeasonPhase::PreSpawn,
            Some(TempTrend::Cooling) | Some(TempTrend::ColdFrontRecent) => SeasonPhase::Winter,
            _ => if spring_side {
                SeasonPhase::PreSpawn
            } else {
                SeasonPhase::Winter
            },
        }
    }
}

/// temp_trend is the primary signal (warming -> spring-side, cooling ->
/// fall-side); the calendar only settles the pre/post-spawn and
/// summer/post-spawn ambiguity when the trend is stable or unknown.
/// The season phase law (spawn range well formed): inside the range it is
/// `Spawn`; below it, warming (or recovering) means `PreSpawn` and cooling
/// (or a cold front) `Winter`, while a stable or unknown trend falls back to
/// the calendar (`PreSpawn` before day 182, else `Winter`); above it,
/// cooling (or a cold front) means `Fall`, warming (or recovering)
/// `PostSpawn`, and a stable or unknown trend `PostSpawn` before day 182,
/// else `Summer`. A stable trend and an unknown one always agree.
pub proof fn season_phase_law(temp_f: int, spawn_lo: int, spawn_hi: int, ordinal: int)
    requires
        spawn_lo <= spawn_hi,
    ensures
        forall|t: Option<TempTrend>|
            spawn_lo <= temp_f <= spawn_hi ==> #[trigger] season_phase_of(temp_f, spawn_lo, spawn_hi, t, ordinal)
                == SeasonPhase::Spawn,
        season_phase_of(temp_f, spawn_lo, spawn_hi, Some(TempTrend::Stable), ordinal) == season_phase_of(
            temp_f,
            spawn_lo,
            spawn_hi,
            None,
            ordinal,
        ),
        temp_f < spawn_lo ==> season_phase_of(temp_f, spawn_lo, spawn_hi, None, ordinal) == (if ordinal
            < 182 {
            SeasonPhase::PreSpawn
        } else {
            SeasonPhase::Winter
        }),
        temp_f < spawn_lo ==> season_phase_of(temp_f, spawn_lo, spawn_hi, Some(TempTrend::Stable), ordinal)
            == (if ordinal < 182 {
            SeasonPhase::PreSpawn
        } else {
            SeasonPhase::Winter
        }),
        temp_f < spawn_lo ==> season_phase_of(temp_f, spawn_lo, spawn_hi, Some(TempTrend::Warming), ordinal)
            == SeasonPhase::PreSpawn && season_phase_of(
            temp_f,
            spawn_lo,
            spawn_hi,
            Some(TempTrend::RecoveringFromFront),
            ordinal,
        ) == SeasonPhase::PreSpawn,
        temp_f < spawn_lo ==> season_phase_of(temp_f, spawn_lo, spawn_hi, Some(TempTrend::Cooling), ordinal)
            == SeasonPhase::Winter && season_phase_of(
            temp_f,
            spawn_lo,
            spawn_hi,
            Some(TempTrend::ColdFrontRecent),
            ordinal,
        ) == SeasonPhase::Winter,
        temp_f > spawn_hi ==> season_phase_of(temp_f, spawn_lo, spawn_hi, None, ordinal) == (if ordinal
            < 182 {
            SeasonPhase::PostSpawn
        } else {
            SeasonPhase::Summer
        }),
        temp_f > spawn_hi ==> season_phase_of(temp_f, spawn_lo, spawn_hi, Some(TempTrend::Cooling), ordinal)
            == SeasonPhase::Fall && season_phase_of(
            temp_f,
            spawn_lo,
            spawn_hi,
            Some(TempTrend::ColdFrontRecent),
            ordinal,
        ) == SeasonPhase::Fall,
        temp_f > spawn_hi ==> season_phase_of(temp_f, spawn_lo, spawn_hi, Some(TempTrend::Warming), ordinal)
            == SeasonPhase::PostSpawn && season_phase_of(
            temp_f,
            spawn_lo,
            spawn_hi,
            Some(TempTrend::RecoveringFromFront),
            ordinal,
        ) == SeasonPhase::PostSpawn,
{
}

pub fn classify_season_phase(
    temp_f: i32,
    spawn_range_f: (i32, i32),
    temp_trend: Option<TempTrend>,
    now: CalendarDate,
) -> (r: SeasonPhase)
    ensures
        r == season_phase_of(
            temp_f as int,
            spawn_range_f.0 as int,
            spawn_range_f.1 as int,
            temp_trend,
            now.ordinal_of(),
        ),
{
    let (spawn_lo, spawn_hi) = spawn_range_f;
    if temp_f >= spawn_lo && temp_f <= spawn_hi {
        return SeasonPhase::Spawn;
    }
    let approaching_spawn_season = now.ordinal() < MIDYEAR_ORDINAL;
    if temp_f > spawn_hi {
        match temp_trend {
            Some(TempTrend::Cooling) | Some(TempTrend::ColdFrontRecent) => SeasonPhase::Fall,
            Some(TempTrend::Warming) | Some(TempTrend::RecoveringFromFront) => SeasonPhase::PostSpawn,
            _ => {
                if approaching_spawn_season {
                    SeasonPhase::PostSpawn
                } else {
                    SeasonPhase::Summer
                }
            },
        }
    } else {
        match temp_trend {
            Some(TempTrend::Warming) | Some(TempTrend::RecoveringFromFront) => SeasonPhase::PreSpawn,
            Some(TempTrend::Cooling) | Some(TempTrend::ColdFrontRecent) => SeasonPhase::Winter,
            _ => {
                if approaching_spawn_season {
                    SeasonPhase::PreSpawn
                } else {
                    SeasonPhase::Winter
                }
            },
        }
    }
}

// ---------------------------------------------------------------------------
// Resolution
// ---------------------------------------------------------------------------

pub open spec fn fetched<T>(v: T) -> Resolved<T> {
    Resolved { value: v, source: Source::Fetched }
}

pub open spec fn provided<T>(v: T) -> Resolved<T> {
    Resolved { value: v, source: Source::Provided }
}

pub open spec fn derived<T>(v: T) -> Resolved<T> {
    Resolved { value: v, source: Source::Derived }
}

/// An override when given, else the fetched value when there is one.
pub open spec fn override_or<T>(o: Option<T>, f: Option<T>) -> Field<T> {
    match o {
        Some(v) => Some(provided(v)),
        None => match f {
            Some(v) => Some(fetched(v)),
            None => None,
        },
    }
}

pub open spec fn provided_opt<T>(o: Option<T>) -> Field<T> {
    match o {
        Some(v) => Some(provided(v)),
        None => None,
    }
}

pub open spec fn fetched_opt<T>(f: Option<T>) -> Field<T> {
    match f {
        Some(v) => Some(fetched(v)),
        None => None,
    }
}

pub open spec fn derived_opt<T>(f: Option<T>) -> Field<T> {
    match f {
        Some(v) => Some(derived(v)),
        None => None,
    }
}

/// The temperature trend: from the gauge's water temperatures when they
/// give one, else from the daily air temperatures.
pub open spec fn resolved_temp_trend(weather: Option<WeatherSnapshot>, water: Option<WaterSnapshot>) -> Option<TempTrend> {
    let from_water = match water {
        Some(w) => temp_trend_of(w.water_temp_points@),
        None => None,
    };
    match from_water {
        Some(t) => Some(t),
        None => match weather {
            Some(w) => temp_trend_of(w.temp_points@),
            None => None,
        },
    }
}

/// Water before air: when the gauge's daily water temperatures classify to
/// a trend, that is the trend whatever the air temperatures say; only when
/// they give none (or there is no gauge) does the air trend count.
pub proof fn water_trend_comes_before_air_trend(weather: Option<WeatherSnapshot>, water: Option<WaterSnapshot>)
    ensures
        water is Some && temp_trend_of(water->0.water_temp_points@) is Some ==> resolved_temp_trend(
            weather,
            water,
        ) == temp_trend_of(water->0.water_temp_points@),
        (water is None || temp_trend_of(water->0.water_temp_points@) is None) ==> resolved_temp_trend(
            weather,
            water,
        ) == match weather {
            Some(a) => temp_trend_of(a.temp_points@),
            None => None,
        },
{
}

/// The instants the trend and time-of-day derivations need to be
/// representable.
pub open spec fn resolvable(weather: Option<WeatherSnapshot>, sun_moon: Option<SunMoonSnapshot>) -> bool {
    &&& weather matches Some(w) ==> {
        &&& forall|i: int|
            0 <= i < w.pressure_points@.len() ==> is_instant(#[trigger] w.pressure_points@[i].time as int)
        &&& w.pressure_points@.len() > 0 ==> is_instant(latest_time(w.pressure_points@) - PRIOR_WINDOW_START_MS)
    }
    &&& sun_moon matches Some(s) ==> {
        &&& is_instant(s.sunrise - DAWN_LEAD_MS)
        &&& is_instant(s.sunrise + DAWN_TRAIL_MS)
        &&& is_instant(s.sunset - DUSK_LEAD_MS)
        &&& is_instant(s.sunset + DUSK_TRAIL_MS)
    }
}

fn clone_covers(v: &Vec<Cover>) -> (r: Vec<Cover>)
    ensures
        r@ == v@,
{
    let mut out: Vec<Cover> = Vec::new();
    let mut i: usize = 0;
    while i < v.len()
        invariant
            i <= v@.len(),
            out@ =~= v@.take(i as int),
        decreases v.len() - i,
    {
        out.push(v[i]);
        i = i + 1;
    }
    assert(v@.take(i as int) =~= v@);
    out
}

/// Merges what the live fetches returned with the caller's overrides:
/// overrides win (source `Provided`); fetched values are `Fetched`;
/// trends, solunar period, time of day and season phase are `Derived`.
/// Water temperature trend takes precedence over air temperature trend,
/// and water temperature over air temperature for the season phase.
/// Clarity, water body type and cover come only from overrides.
pub fn resolve(
    weather: &Option<WeatherSnapshot>,
    water: &Option<WaterSnapshot>,
    sun_moon: &Option<SunMoonSnapshot>,
    spawn_range_f: (i32, i32),
    overrides: &ConditionOverrides,
    now: i64,
    today: CalendarDate,
) -> (c: ResolvedConditions)
    requires
        resolvable(*weather, *sun_moon),
    ensures
        c.air_temp_f == override_or(
            overrides.air_temp_f,
            match *weather {
                Some(w) => Some(w.air_temp_f),
                None => None,
            },
        ),
        c.sky == fetched_opt(
            match *weather {
                Some(w) => Some(w.sky),
                None => None,
            },
        ),
        c.wind_mph == fetched_opt(
            match *weather {
                Some(w) => Some(w.wind_mph),
                None => None,
            },
        ),
        c.wind_direction_deg == fetched_opt(
            match *weather {
                Some(w) => Some(w.wind_direction_deg),
                None => None,
            },
        ),
        c.pressure_mb == fetched_opt(
            match *weather {
                Some(w) => Some(w.pressure_mb),
                None => None,
            },
        ),
        c.precip_recent == fetched_opt(
            match *weather {
                Some(w) => Some(w.precip_recent),
                None => None,
            },
        ),
        c.pressure_trend == derived_opt(
            match *weather {
                Some(w) => pressure_trend_of(w.pressure_points@),
                None => None,
            },
        ),
        c.temp_trend == derived_opt(resolved_temp_trend(*weather, *water)),
        c.water_temp_f == override_or(
            overrides.water_temp_f,
            match *water {
                Some(w) => w.water_temp_f,
                None => None,
            },
        ),
        c.water_level_trend == override_or(
            overrides.water_level_trend,
            match *water {
                Some(w) => w.water_level_trend,
                None => None,
            },
        ),
        c.flow_cfs == fetched_opt(
            match *water {
                Some(w) => w.flow_cfs,
                None => None,
            },
        ),
        c.solunar_period == derived_opt(
            match *sun_moon {
                Some(s) => Some(s.solunar_period),
                None => None,
            },
        ),
        c.time_of_day == derived_opt(
            match *sun_moon {
                Some(s) => Some(time_of_day_at(s.sunrise as int, s.sunset as int, now as int)),
                None => None,
            },
        ),
        c.season_phase == derived_opt(
            match (c.water_temp_f, c.air_temp_f) {
                (Some(t), _) => Some(
                    season_phase_of(
                        t.value as int,
                        spawn_range_f.0 as int,
                        spawn_range_f.1 as int,
                        resolved_temp_trend(*weather, *water),
                        today.ordinal_of(),
                    ),
                ),
                (None, Some(t)) => Some(
                    season_phase_of(
                        t.value as int,
                        spawn_range_f.0 as int,
                        spawn_range_f.1 as int,
                        resolved_temp_trend(*weather, *water),
                        today.ordinal_of(),
                    ),
                ),
                (None, None) => None,
            },
        ),
        c.water_clarity == provided_opt(overrides.water_clarity),
        c.water_body_type == provided_opt(overrides.water_body_type),
        match (c.cover, overrides.cover) {
            (Some(r), Some(v)) => r.source == Source::Provided && r.value@ == v@,
            (None, None) => true,
            _ => false,
        },
{
    let (air_fetched, sky, wind, wind_dir, pressure, precip, pressure_trend) = match weather {
        Some(w) => (
            Some(w.air_temp_f),
            Some(w.sky),
            Some(w.wind_mph),
            Some(w.wind_direction_deg),
            Some(w.pressure_mb),
            Some(w.precip_recent),
            classify_pressure_trend(w.pressure_points.as_slice()),
        ),
        None => (None, None, None, None, None, None, None),
    };
    let temp_trend = resolve_temp_trend(weather, water);
    let (water_temp, level, flow) = match water {
        Some(w) => (w.water_temp_f, w.water_level_trend, w.flow_cfs),
        None => (None, None, None),
    };
    let (solunar, time_of_day) = match sun_moon {
        Some(s) => (Some(s.solunar_period), Some(classify_time_of_day(s.sunrise, s.sunset, now))),
        None => (None, None),
    };
    let air_temp_f = override_or_fetched(overrides.air_temp_f, air_fetched);
    let water_temp_f = override_or_fetched(overrides.water_temp_f, water_temp);
    let season_input_temp = match water_temp_f {
        Some(r) => Some(r.value),
        None => match air_temp_f {
            Some(r) => Some(r.value),
            None => None,
        },
    };
    let season = match season_input_temp {
        Some(t) => Some(classify_season_phase(t, spawn_range_f, temp_trend, today)),
        None => None,
    };
    let cover = match &overrides.cover {
        Some(v) => Some(Resolved::new(clone_covers(v), Source::Provided)),
        None => None,
    };
    ResolvedConditions {
        air_temp_f,
        sky: fetched_field(sky),
        wind_mph: fetched_field(wind),
        wind_direction_deg: fetched_field(wind_dir),
        pressure_mb: fetched_field(pressure),
        precip_recent: fetched_field(precip),
        pressure_trend: derived_field(pressure_trend),
        temp_trend: derived_field(temp_trend),
        water_temp_f,
        water_level_trend: override_or_fetched(overrides.water_level_trend, level),
        flow_cfs: fetched_field(flow),
        solunar_period: derived_field(solunar),
        time_of_day: derived_field(time_of_day),
        season_phase: derived_field(season),
        water_clarity: provided_field(overrides.water_clarity),
        water_body_type: provided_field(overrides.water_body_type),
        cover,
    }
}

fn override_or_fetched<T: Copy>(o: Option<T>, f: Option<T>) -> (r: Field<T>)
    ensures
        r == override_or(o, f),
{
    match o {
        Some(v) => Some(Resolved::new(v, Source::Provided)),
        None => match f {
            Some(v) => Some(Resolved::new(v, Source::Fetched)),
            None => None,
        },
    }
}

fn fetched_field<T: Copy>(f: Option<T>) -> (r: Field<T>)
    ensures
        r == fetched_opt(f),
{
    match f {
        Some(v) => Some(Resolved::new(v, Source::Fetched)),
        None => None,
    }
}

fn derived_field<T: Copy>(f: Option<T>) -> (r: Field<T>)
    ensures
        r == derived_opt(f),
{
    match f {
        Some(v) => Some(Resolved::new(v, Source::Derived)),
        None => None,
    }
}

fn provided_field<T: Copy>(f: Option<T>) -> (r: Field<T>)
    ensures
        r == provided_opt(f),
{
    match f {
        Some(v) => Some(Resolved::new(v, Source::Provided)),
        None => None,
    }
}

fn resolve_temp_trend(weather: &Option<WeatherSnapshot>, water: &Option<WaterSnapshot>) -> (r: Option<TempTrend>)
    ensures
        r == resolved_temp_trend(*weather, *water),
{
    let from_water = match water {
        Some(w) => classify_temp_trend(w.water_temp_points.as_slice()),
        None => None,
    };
    match from_water {
        Some(t) => Some(t),
        None => match weather {
            Some(w) => classify_temp_trend(w.temp_points.as_slice()),
            None => None,
        },
    }
}

} // verus!
