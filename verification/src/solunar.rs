//! Knight's solunar theory: "major" feeding periods at moon transit (both
//! overhead and underfoot) and "minor" periods at moonrise and moonset.
//! Transit is approximated as the midpoint between moonrise and moonset, or
//! derived from whichever one is known using the ~24h50m lunar day.
use vstd::prelude::*;
use crate::calendar::{is_instant, parse_clock_time, parsed_clock_time, clock_millis, DAY_MS, MINUTE_MS};
use crate::conditions::SolunarPeriod;

verus! {

/// Major periods are about two hours wide, minor periods about one.
pub const MAJOR_HALF_WIDTH_MIN: i64 = 60;

pub const MINOR_HALF_WIDTH_MIN: i64 = 30;

/// The moon's transit-to-transit cycle in whole minutes (24.833h).
pub const LUNAR_DAY_MINUTES: i64 = 1489;

/// Half a lunar day: from one transit to the opposite one.
pub const HALF_LUNAR_DAY_MS: i64 = 44640000;

/// A quarter of a lunar day: from moonrise to transit, or transit to moonset.
pub const QUARTER_LUNAR_DAY_MS: i64 = 22320000;

/// A solunar period centred on an instant.
#[derive(Clone, Copy, Debug)]
pub struct SolunarWindow {
    pub kind: SolunarPeriod,
    pub center: i64,
}

/// Sunrise, sunset (instants), the solunar period in force and the day's
/// solunar windows.
#[derive(Debug)]
pub struct SunMoonSnapshot {
    pub sunrise: i64,
    pub sunset: i64,
    pub solunar_period: SolunarPeriod,
    pub solunar_windows: Vec<SolunarWindow>,
}

pub open spec fn window_at(kind: SolunarPeriod, center: int) -> SolunarWindow {
    SolunarWindow { kind, center: center as i64 }
}

/// Estimated moon transit: the midpoint of moonrise and moonset when the set
/// follows the rise (rounded down to the millisecond), else a quarter lunar
/// day after moonrise, else a quarter lunar day before moonset.
pub open spec fn transit_of(moonrise: Option<i64>, moonset: Option<i64>) -> Option<int> {
    match (moonrise, moonset) {
        (Some(mr), Some(ms)) if ms > mr => Some(mr + (ms - mr) / 2),
        (Some(mr), _) => Some(mr + QUARTER_LUNAR_DAY_MS),
        (_, Some(ms)) => Some(ms - QUARTER_LUNAR_DAY_MS),
        (None, None) => None,
    }
}

/// Minor windows at moonrise and moonset (when known), then the major window
/// at transit and the opposite transits half a lunar day either side.
pub open spec fn solunar_windows_of(moonrise: Option<i64>, moonset: Option<i64>) -> Seq<
    SolunarWindow,
> {
    let minors_rise = match moonrise {
        Some(mr) => seq![window_at(SolunarPeriod::Minor, mr as int)],
        None => Seq::empty(),
    };
    let minors_set = match moonset {
        Some(ms) => seq![window_at(SolunarPeriod::Minor, ms as int)],
        None => Seq::empty(),
    };
    let majors = match transit_of(moonrise, moonset) {
        Some(t) => seq![
            window_at(SolunarPeriod::Major, t),
            window_at(SolunarPeriod::Major, t + HALF_LUNAR_DAY_MS),
            window_at(SolunarPeriod::Major, t - HALF_LUNAR_DAY_MS),
        ],
        None => Seq::empty(),
    };
    minors_rise + minors_set + majors
}

/// The instants the windows need to be representable.
pub open spec fn windows_representable(moonrise: Option<i64>, moonset: Option<i64>) -> bool {
    &&& moonrise matches Some(mr) ==> is_instant(mr as int)
    &&& moonset matches Some(ms) ==> is_instant(ms as int)
    &&& transit_of(moonrise, moonset) matches Some(t) ==> {
        &&& is_instant(t - HALF_LUNAR_DAY_MS)
        &&& is_instant(t + HALF_LUNAR_DAY_MS)
    }
    &&& moonrise matches Some(mr) ==> is_instant(mr + QUARTER_LUNAR_DAY_MS)
    &&& moonset matches Some(ms) ==> is_instant(ms - QUARTER_LUNAR_DAY_MS)
}

pub fn knights_solunar_windows(moonrise: Option<i64>, moonset: Option<i64>) -> (r: Vec<
    SolunarWindow,
>)
    requires
        windows_representable(moonrise, moonset),
    ensures
        r@ == solunar_windows_of(moonrise, moonset),
{
    let mut windows: Vec<SolunarWindow> = Vec::new();
    if let Some(mr) = moonrise {
        windows.push(SolunarWindow { kind: SolunarPeriod::Minor, center: mr });
    }
    if let Some(ms) = moonset {
        windows.push(SolunarWindow { kind: SolunarPeriod::Minor, center: ms });
    }
    let transit: Option<i64> = match (moonrise, moonset) {
        (Some(mr), Some(ms)) if ms > mr => Some(mr + (ms - mr) / 2),
        (Some(mr), _) => Some(mr + QUARTER_LUNAR_DAY_MS),
        (_, Some(ms)) => Some(ms - QUARTER_LUNAR_DAY_MS),
        (None, None) => None,
    };
    if let Some(t) = transit {
        windows.push(SolunarWindow { kind: SolunarPeriod::Major, center: t });
        windows.push(SolunarWindow { kind: SolunarPeriod::Major, center: t + HALF_LUNAR_DAY_MS });
        windows.push(SolunarWindow { kind: SolunarPeriod::Major, center: t - HALF_LUNAR_DAY_MS });
    }
    assert(windows@ =~= solunar_windows_of(moonrise, moonset));
    windows
}

pub open spec fn abs_int(x: int) -> int {
    if x < 0 {
        -x
    } else {
        x
    }
}

/// `at` lies within `half_width_min` whole minutes of the window's centre.
pub open spec fn within_minutes(w: SolunarWindow, at: int, half_width_min: int) -> bool {
    abs_int(at - w.center) / (MINUTE_MS as int) <= half_width_min
}

/// The current period: `Major` exactly when some major window's centre is
/// less than 61 minutes from `at` (whole minutes, at most 60); else `Minor`
/// exactly when some minor window's centre is less than 31 minutes away;
/// else `Neutral`.
pub proof fn current_period_law(windows: Seq<SolunarWindow>, at: int)
    ensures
        solunar_period_at(windows, at) == SolunarPeriod::Major <==> exists|i: int|
            0 <= i < windows.len() && (#[trigger] windows[i]).kind == SolunarPeriod::Major && -3660000
                < at - windows[i].center < 3660000,
        solunar_period_at(windows, at) == SolunarPeriod::Minor <==> (!(exists|i: int|
            0 <= i < windows.len() && (#[trigger] windows[i]).kind == SolunarPeriod::Major && -3660000
                < at - windows[i].center < 3660000) && exists|i: int|
            0 <= i < windows.len() && (#[trigger] windows[i]).kind == SolunarPeriod::Minor && -1860000
                < at - windows[i].center < 1860000),
{
    assert forall|w: SolunarWindow| #[trigger] within_minutes(w, at, 60) <==> -3660000 < at - w.center
        < 3660000 by {
        let d = abs_int(at - w.center);
        assert(d / 60000 <= 60 <==> d < 3660000) by (nonlinear_arith)
            requires d >= 0;
    }
    assert forall|w: SolunarWindow| #[trigger] within_minutes(w, at, 30) <==> -1860000 < at - w.center
        < 1860000 by {
        let d = abs_int(at - w.center);
        assert(d / 60000 <= 30 <==> d < 1860000) by (nonlinear_arith)
            requires d >= 0;
    }
    if solunar_period_at(windows, at) == SolunarPeriod::Major {
        let i = choose|i: int|
            0 <= i < windows.len() && windows[i].kind == SolunarPeriod::Major && within_minutes(
                #[trigger] windows[i],
                at,
                MAJOR_HALF_WIDTH_MIN as int,
            );
        assert(within_minutes(windows[i], at, 60));
    }
    if solunar_period_at(windows, at) == SolunarPeriod::Minor {
        let i = choose|i: int|
            0 <= i < windows.len() && windows[i].kind == SolunarPeriod::Minor && within_minutes(
                #[trigger] windows[i],
                at,
                MINOR_HALF_WIDTH_MIN as int,
            );
        assert(within_minutes(windows[i], at, 30));
    }
    assert forall|i: int|
        0 <= i < windows.len() && (#[trigger] windows[i]).kind == SolunarPeriod::Major && -3660000 < at
            - windows[i].center < 3660000 implies solunar_period_at(windows, at) == SolunarPeriod::Major by {
        assert(within_minutes(windows[i], at, 60));
    }
    assert forall|i: int|
        0 <= i < windows.len() && (#[trigger] windows[i]).kind == SolunarPeriod::Minor && -1860000 < at
            - windows[i].center < 1860000 implies solunar_period_at(windows, at) != SolunarPeriod::Neutral by {
        assert(within_minutes(windows[i], at, 30));
    }
}

/// `Major` if `at` is within an hour of a major window's centre, else
/// `Minor` if within half an hour of a minor one's, else `Neutral`.
pub open spec fn solunar_period_at(windows: Seq<SolunarWindow>, at: int) -> SolunarPeriod {
    if exists|i: int|
        0 <= i < windows.len() && windows[i].kind == SolunarPeriod::Major && within_minutes(
            #[trigger] windows[i],
            at,
            MAJOR_HALF_WIDTH_MIN as int,
        ) {
        SolunarPeriod::Major
    } else if exists|i: int|
        0 <= i < windows.len() && windows[i].kind == SolunarPeriod::Minor && within_minutes(
            #[trigger] windows[i],
            at,
            MINOR_HALF_WIDTH_MIN as int,
        ) {
        SolunarPeriod::Minor
    } else {
        SolunarPeriod::Neutral
    }
}

fn within(w: &SolunarWindow, at: i64, half_width_min: i64) -> (r: bool)
    requires
        is_instant(w.center as int),
        is_instant(at as int),
    ensures
        r == within_minutes(*w, at as int, half_width_min as int),
{
    let diff = at - w.center;
    let abs = if diff < 0 {
        -diff
    } else {
        diff
    };
    abs / MINUTE_MS <= half_width_min
}

pub fn current_solunar_period(windows: &[SolunarWindow], at: i64) -> (r: SolunarPeriod)
    requires
        forall|i: int| 0 <= i < windows@.len() ==> is_instant(#[trigger] windows@[i].center as int),
        is_instant(at as int),
    ensures
        r == solunar_period_at(windows@, at as int),
{
    let mut i: usize = 0;
    while i < windows.len()
        invariant
            i <= windows@.len(),
            forall|j: int| 0 <= j < windows@.len() ==> is_instant(#[trigger] windows@[j].center as int),
            is_instant(at as int),
            forall|j: int|
                0 <= j < i ==> !(windows@[j].kind == SolunarPeriod::Major && within_minutes(
                    #[trigger] windows@[j],
                    at as int,
                    MAJOR_HALF_WIDTH_MIN as int,
                )),
        decreases windows.len() - i,
    {
        if windows[i].kind == SolunarPeriod::Major && within(&windows[i], at, MAJOR_HALF_WIDTH_MIN) {
            return SolunarPeriod::Major;
        }
        i = i + 1;
    }
    let mut j: usize = 0;
    while j < windows.len()
        invariant
            j <= windows@.len(),
            forall|k: int| 0 <= k < windows@.len() ==> is_instant(#[trigger] windows@[k].center as int),
            is_instant(at as int),
            forall|k: int|
                0 <= k < windows@.len() ==> !(windows@[k].kind == SolunarPeriod::Major
                    && within_minutes(#[trigger] windows@[k], at as int, MAJOR_HALF_WIDTH_MIN as int)),
            forall|k: int|
                0 <= k < j ==> !(windows@[k].kind == SolunarPeriod::Minor && within_minutes(
                    #[trigger] windows@[k],
                    at as int,
                    MINOR_HALF_WIDTH_MIN as int,
                )),
        decreases windows.len() - j,
    {
        if windows[j].kind == SolunarPeriod::Minor && within(&windows[j], at, MINOR_HALF_WIDTH_MIN) {
            return SolunarPeriod::Minor;
        }
        j = j + 1;
    }
    SolunarPeriod::Neutral
}

// ---------------------------------------------------------------------------
// Snapshot from the sunrise-sunset service's answer
// ---------------------------------------------------------------------------

/// The sunrise-sunset service's results for one date: the date's first
/// instant (midnight UTC) and the 12-hour clock strings it reports.
#[derive(Debug)]
pub struct SunMoonTimes {
    pub date_start: i64,
    pub sunrise: String,
    pub sunset: String,
    pub moonrise: Option<String>,
    pub moonset: Option<String>,
}

#[derive(Clone, Copy, Debug, PartialEq, Eq, Structural)]
pub enum SunMoonError {
    /// The sunrise time could not be parsed.
    BadSunrise,
    /// The sunset time could not be parsed.
    BadSunset,
}

/// A clock time of the reported date as an instant; a clock time earlier
/// than sunrise's belongs to the following day.
pub open spec fn instant_relative_to(date_start: int, sunrise_ms: int, s: Seq<char>) -> Option<
    i64,
> {
    match parsed_clock_time(s) {
        Some(p) => {
            let t = clock_millis(p);
            Some(
                (if t < sunrise_ms {
                    date_start + t + DAY_MS
                } else {
                    date_start + t
                }) as i64,
            )
        },
        None => None,
    }
}

pub open spec fn opt_instant_relative_to(date_start: int, sunrise_ms: int, s: Option<String>) -> Option<i64> {
    match s {
        Some(s) => instant_relative_to(date_start, sunrise_ms, s@),
        None => None,
    }
}

/// The snapshot the times give at `at`: sunrise and sunset as instants and
/// the solunar period of the moon's windows at `at`; moon times that are
/// missing or unparsable just contribute no window.
pub struct SnapshotView {
    pub sunrise: i64,
    pub sunset: i64,
    pub solunar_period: SolunarPeriod,
    pub solunar_windows: Seq<SolunarWindow>,
}

impl View for SunMoonSnapshot {
    type V = SnapshotView;

    open spec fn view(&self) -> SnapshotView {
        SnapshotView {
            sunrise: self.sunrise,
            sunset: self.sunset,
            solunar_period: self.solunar_period,
            solunar_windows: self.solunar_windows@,
        }
    }
}

pub open spec fn snapshot_of(r: SunMoonTimes, at: int) -> Result<SnapshotView, SunMoonError> {
    match parsed_clock_time(r.sunrise@) {
        None => Err(SunMoonError::BadSunrise),
        Some(sp) => {
            let sunrise_ms = clock_millis(sp);
            match instant_relative_to(r.date_start as int, sunrise_ms, r.sunset@) {
                None => Err(SunMoonError::BadSunset),
                Some(sunset) => {
                    let moonrise = opt_instant_relative_to(r.date_start as int, sunrise_ms, r.moonrise);
                    let moonset = opt_instant_relative_to(r.date_start as int, sunrise_ms, r.moonset);
                    Ok(
                        SnapshotView {
                            sunrise: (r.date_start + sunrise_ms) as i64,
                            sunset,
                            solunar_period: solunar_period_at(
                                solunar_windows_of(moonrise, moonset),
                                at,
                            ),
                            solunar_windows: solunar_windows_of(moonrise, moonset),
                        },
                    )
                },
            }
        },
    }
}

fn parse_relative_to(date_start: i64, sunrise_ms: u32, s: &str) -> (r: Option<i64>)
    requires
        is_instant(date_start as int),
        is_instant(date_start + 3 * DAY_MS),
    ensures
        r == instant_relative_to(date_start as int, sunrise_ms as int, s@),
        r matches Some(t) ==> date_start <= t < date_start + 2 * DAY_MS + 2000,
{
    match parse_clock_time(s) {
        Some(t) => {
            if t < sunrise_ms {
                Some(date_start + t as i64 + DAY_MS)
            } else {
                Some(date_start + t as i64)
            }
        },
        None => None,
    }
}

fn parse_opt_relative_to(date_start: i64, sunrise_ms: u32, s: &Option<String>) -> (r: Option<i64>)
    requires
        is_instant(date_start as int),
        is_instant(date_start + 3 * DAY_MS),
    ensures
        r == opt_instant_relative_to(date_start as int, sunrise_ms as int, *s),
        r matches Some(t) ==> date_start <= t < date_start + 2 * DAY_MS + 2000,
{
    match s {
        Some(s) => parse_relative_to(date_start, sunrise_ms, s.as_str()),
        None => None,
    }
}

/// Builds the snapshot from the service's results, as of `at`.
pub fn build_snapshot(r: SunMoonTimes, at: i64) -> (res: Result<SunMoonSnapshot, SunMoonError>)
    requires
        is_instant(r.date_start - DAY_MS),
        is_instant(r.date_start + 5 * DAY_MS),
        is_instant(at as int),
    ensures
        match res {
            Ok(s) => snapshot_of(r, at as int) == Ok::<SnapshotView, SunMoonError>(s@),
            Err(e) => snapshot_of(r, at as int) == Err::<SnapshotView, SunMoonError>(e),
        },
        res matches Ok(s) ==> s.solunar_windows@.len() <= 5 && forall|i: int|
            0 <= i < s.solunar_windows@.len() ==> is_instant(#[trigger] s.solunar_windows@[i].center as int) && is_instant(s.solunar_windows@[i].center + 2 * DAY_MS),
{
    let sunrise_ms = match parse_clock_time(r.sunrise.as_str()) {
        Some(t) => t,
        None => return Err(SunMoonError::BadSunrise),
    };
    let sunrise = r.date_start + sunrise_ms as i64;
    let sunset = match parse_relative_to(r.date_start, sunrise_ms, r.sunset.as_str()) {
        Some(t) => t,
        None => return Err(SunMoonError::BadSunset),
    };
    let moonrise = parse_opt_relative_to(r.date_start, sunrise_ms, &r.moonrise);
    let moonset = parse_opt_relative_to(r.date_start, sunrise_ms, &r.moonset);
    let windows = knights_solunar_windows(moonrise, moonset);
    proof {
        assert forall|i: int| 0 <= i < windows@.len() implies is_instant(#[trigger] windows@[i].center as int)
            && is_instant(windows@[i].center + 2 * DAY_MS) by {
            assert(r.date_start - DAY_MS <= windows@[i].center <= r.date_start + 3 * DAY_MS);
        }
    }
    let solunar_period = current_solunar_period(windows.as_slice(), at);
    Ok(SunMoonSnapshot { sunrise, sunset, solunar_period, solunar_windows: windows })
}

} // verus!
