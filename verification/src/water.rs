//! Water conditions from the nearest usable USGS gauge: the freshest
//! reading of each parameter, water level trend, and unit conversion.
//! Reading values are hundredths of their parameter's unit (degrees
//! Celsius, cubic feet per second, feet); distances are hundredths of a
//! mile.
use vstd::prelude::*;
use crate::calendar::{is_instant, CalendarDate, HOUR_MS};
use crate::conditions::{TempPoint, WaterLevelTrend};
use crate::numeric::{compare_fractions, fraction_order, ints_of, sign_of, sum_of, ITEM_BOUND};

verus! {

/// USGS parameter codes: water temperature (C), discharge (cfs), gage
/// height (ft).
pub const PARAM_WATER_TEMP_C: &'static str = "00010";

pub const PARAM_DISCHARGE_CFS: &'static str = "00060";

pub const PARAM_GAGE_HEIGHT_FT: &'static str = "00065";

/// A latest reading older than 72 hours is not current data.
pub const FRESHNESS_LIMIT_MS: i64 = 259200000;

/// What the nearest usable gauge reports.
#[derive(Debug)]
pub struct WaterSnapshot {
    pub water_temp_f: Option<i32>,
    pub flow_cfs: Option<i32>,
    pub water_level_trend: Option<WaterLevelTrend>,
    /// Trailing daily water temperatures, oldest first.
    pub water_temp_points: Vec<TempPoint>,
    pub site_name: String,
    pub distance_mi: i32,
}

// ---------------------------------------------------------------------------
// Unit conversion
// ---------------------------------------------------------------------------

/// Hundredths of a degree Celsius to hundredths of a degree Fahrenheit,
/// rounded to the nearest hundredth (halves up): `c * 9 / 5 + 32`.
pub open spec fn fahrenheit_of(c: int) -> int {
    (18 * c + 5) / 10 + 3200
}

pub fn celsius_to_fahrenheit(c: i32) -> (r: i64)
    ensures
        r == fahrenheit_of(c as int),
{
    let x: i64 = 18 * (c as i64) + 5 + 40000000000;
    let q: u64 = (x as u64) / 10;
    proof {
        assert((18 * c + 5 + 40000000000) / 10 == (18 * c + 5) / 10 + 4000000000) by (nonlinear_arith);
    }
    (q as i64) - 4000000000 + 3200
}

/// The value clamped to the `i32` range.
pub open spec fn saturate(x: int) -> int {
    if x > i32::MAX {
        i32::MAX as int
    } else if x < i32::MIN {
        i32::MIN as int
    } else {
        x
    }
}

fn saturating_i32(x: i64) -> (r: i32)
    ensures
        r == saturate(x as int),
{
    if x > i32::MAX as i64 {
        i32::MAX
    } else if x < i32::MIN as i64 {
        i32::MIN
    } else {
        x as i32
    }
}

// ---------------------------------------------------------------------------
// Water level trend
// ---------------------------------------------------------------------------

/// The recent half's mean is at least 5% above the early half's, relative
/// to the early mean (`(recent - early) / early >= 0.05`), written over the
/// sums and counts.
pub open spec fn level_rising(sr: int, nr: int, se: int, ne: int) -> bool {
    if se > 0 {
        fraction_order(20 * sr, nr, 21 * se, ne) >= 0
    } else {
        fraction_order(20 * sr, nr, 21 * se, ne) <= 0
    }
}

/// `(recent - early) / early <= -0.05`, over the sums and counts.
pub open spec fn level_falling(sr: int, nr: int, se: int, ne: int) -> bool {
    if se > 0 {
        fraction_order(20 * sr, nr, 19 * se, ne) <= 0
    } else {
        fraction_order(20 * sr, nr, 19 * se, ne) >= 0
    }
}

/// The series split in two halves (the later one taking the odd element);
/// `None` with fewer than four values or an early mean of zero.
pub open spec fn level_trend_of(s: Seq<i32>) -> Option<WaterLevelTrend> {
    if s.len() < 4 {
        None
    } else {
        let mid = s.len() / 2;
        let se = sum_of(ints_of(s.take(mid as int)));
        let sr = sum_of(ints_of(s.skip(mid as int)));
        let ne = mid as int;
        let nr = s.len() - mid;
        if se == 0 {
            None
        } else if level_rising(sr, nr, se, ne) {
            Some(WaterLevelTrend::Rising)
        } else if level_falling(sr, nr, se, ne) {
            Some(WaterLevelTrend::Falling)
        } else {
            Some(WaterLevelTrend::Stable)
        }
    }
}

proof fn lemma_sum_scaled(s: Seq<i32>, t: Seq<i32>, k: int)
    requires
        s.len() == t.len(),
        forall|i: int| 0 <= i < s.len() ==> t[i] == k * s[i],
    ensures
        sum_of(ints_of(t)) == k * sum_of(ints_of(s)),
    decreases s.len(),
{
    if s.len() > 0 {
        lemma_sum_scaled(s.drop_last(), t.drop_last(), k);
        assert(ints_of(s).drop_last() =~= ints_of(s.drop_last()));
        assert(ints_of(t).drop_last() =~= ints_of(t.drop_last()));
        assert(k * sum_of(ints_of(s.drop_last())) + k * s.last() == k * (sum_of(
            ints_of(s.drop_last()),
        ) + s.last())) by (nonlinear_arith);
    }
}

proof fn lemma_order_scaled(a: int, b: int, k: int)
    requires
        k > 0,
    ensures
        sign_of(k * a - k * b) == sign_of(a - b),
{
    assert(k * a - k * b == k * (a - b)) by (nonlinear_arith);
    assert((a - b > 0) ==> k * (a - b) > 0) by (nonlinear_arith)
        requires k > 0;
    assert((a - b < 0) ==> k * (a - b) < 0) by (nonlinear_arith)
        requires k > 0;
}

/// The level trend reads relative change: scaling every reading by the same
/// positive factor (another unit, gage height or discharge) leaves it
/// unchanged.
pub proof fn level_trend_is_scale_free(s: Seq<i32>, t: Seq<i32>, k: int)
    requires
        k > 0,
        s.len() == t.len(),
        forall|i: int| 0 <= i < s.len() ==> t[i] == k * s[i],
    ensures
        level_trend_of(t) == level_trend_of(s),
{
    if s.len() >= 4 {
        let mid = s.len() / 2;
        let se = sum_of(ints_of(s.take(mid as int)));
        let sr = sum_of(ints_of(s.skip(mid as int)));
        let ne = mid as int;
        let nr = s.len() - mid;
        lemma_sum_scaled(s.take(mid as int), t.take(mid as int), k);
        lemma_sum_scaled(s.skip(mid as int), t.skip(mid as int), k);
        let te = sum_of(ints_of(t.take(mid as int)));
        let tr = sum_of(ints_of(t.skip(mid as int)));
        assert(te == k * se && tr == k * sr);
        assert(se > 0 <==> te > 0) by (nonlinear_arith)
            requires te == k * se, k > 0;
        assert(se == 0 <==> te == 0) by (nonlinear_arith)
            requires te == k * se, k > 0;
        assert(20 * tr * nr == k * (20 * sr * nr)) by (nonlinear_arith)
            requires tr == k * sr;
        assert(21 * te * ne == k * (21 * se * ne)) by (nonlinear_arith)
            requires te == k * se;
        assert(19 * te * ne == k * (19 * se * ne)) by (nonlinear_arith)
            requires te == k * se;
        assert(20 * tr * ne == k * (20 * sr * ne)) by (nonlinear_arith)
            requires tr == k * sr;
        assert(21 * te * nr == k * (21 * se * nr)) by (nonlinear_arith)
            requires te == k * se;
        assert(19 * te * nr == k * (19 * se * nr)) by (nonlinear_arith)
            requires te == k * se;
        lemma_order_scaled(20 * sr * ne, 21 * se * nr, k);
        lemma_order_scaled(20 * sr * ne, 19 * se * nr, k);
        assert((20 * tr) * ne == 20 * tr * ne) by (nonlinear_arith);
        assert((21 * te) * nr == 21 * te * nr) by (nonlinear_arith);
        assert((19 * te) * nr == 19 * te * nr) by (nonlinear_arith);
        assert((20 * sr) * ne == 20 * sr * ne) by (nonlinear_arith);
        assert((21 * se) * nr == 21 * se * nr) by (nonlinear_arith);
        assert((19 * se) * nr == 19 * se * nr) by (nonlinear_arith);
    }
}

proof fn lemma_sum_bounded(s: Seq<i32>)
    ensures
        -(s.len() * ITEM_BOUND) <= sum_of(ints_of(s)) <= s.len() * ITEM_BOUND,
    decreases s.len(),
{
    if s.len() > 0 {
        lemma_sum_bounded(s.drop_last());
        assert(ints_of(s).drop_last() =~= ints_of(s.drop_last()));
    }
}

fn sum_range(s: &[i32], lo: usize, hi: usize) -> (r: i128)
    requires
        lo <= hi <= s@.len(),
    ensures
        r == sum_of(ints_of(s@.subrange(lo as int, hi as int))),
{
    let mut sum: i128 = 0;
    let mut i: usize = lo;
    while i < hi
        invariant
            lo <= i <= hi,
            hi <= s@.len(),
            sum == sum_of(ints_of(s@.subrange(lo as int, i as int))),
        decreases hi - i,
    {
        proof {
            assert(ints_of(s@.subrange(lo as int, i as int + 1)).drop_last() =~= ints_of(
                s@.subrange(lo as int, i as int),
            ));
            lemma_sum_bounded(s@.subrange(lo as int, i as int));
            assert(i - lo <= 0xffff_ffff_ffff_ffff);
            assert((i - lo) * ITEM_BOUND <= 0xffff_ffff_ffff_ffff * ITEM_BOUND) by (nonlinear_arith)
                requires i - lo <= 0xffff_ffff_ffff_ffff;
        }
        sum = sum + s[i] as i128;
        i = i + 1;
    }
    sum
}

/// Splits the trailing week into two halves and compares their means; a
/// relative (not absolute) threshold since this is shared between gage
/// height (feet, small numbers) and discharge (cfs, large numbers).
pub fn classify_level_trend(points: &[i32]) -> (r: Option<WaterLevelTrend>)
    ensures
        r == level_trend_of(points@),
{
    let n = points.len();
    if n < 4 {
        return None;
    }
    let mid = n / 2;
    let se = sum_range(points, 0, mid);
    let sr = sum_range(points, mid, n);
    proof {
        assert(points@.subrange(0, mid as int) =~= points@.take(mid as int));
        assert(points@.subrange(mid as int, n as int) =~= points@.skip(mid as int));
        lemma_sum_bounded(points@.take(mid as int));
        lemma_sum_bounded(points@.skip(mid as int));
        assert(mid * ITEM_BOUND <= 0xffff_ffff_ffff_ffff * ITEM_BOUND) by (nonlinear_arith)
            requires mid <= 0xffff_ffff_ffff_ffff;
        assert((n - mid) * ITEM_BOUND <= 0xffff_ffff_ffff_ffff * ITEM_BOUND) by (nonlinear_arith)
            requires n - mid <= 0xffff_ffff_ffff_ffff;
    }
    if se == 0 {
        return None;
    }
    let ne = mid as u64;
    let nr = (n - mid) as u64;
    let up = compare_fractions(20 * sr, nr, 21 * se, ne);
    let rising = if se > 0 {
        up >= 0
    } else {
        up <= 0
    };
    if rising {
        return Some(WaterLevelTrend::Rising);
    }
    let down = compare_fractions(20 * sr, nr, 19 * se, ne);
    let falling = if se > 0 {
        down <= 0
    } else {
        down >= 0
    };
    if falling {
        Some(WaterLevelTrend::Falling)
    } else {
        Some(WaterLevelTrend::Stable)
    }
}

// ---------------------------------------------------------------------------
// Freshest readings
// ---------------------------------------------------------------------------

/// One reading of a gauge's latest-continuous feed; `value` is `None` where
/// the reported string is not a number.
#[derive(Debug)]
pub struct Reading {
    pub parameter_code: String,
    pub time: i64,
    pub value: Option<i32>,
}

/// The latest numeric reading of `param`: the one with the greatest time,
/// the earliest of them on ties.
pub open spec fn latest_of(rs: Seq<Reading>, param: Seq<char>) -> Option<(i64, i32)>
    decreases rs.len(),
{
    if rs.len() == 0 {
        None
    } else {
        let prev = latest_of(rs.drop_last(), param);
        let r = rs.last();
        if r.parameter_code@ != param {
            prev
        } else {
            match r.value {
                None => prev,
                Some(v) => match prev {
                    None => Some((r.time, v)),
                    Some(p) => if r.time > p.0 {
                        Some((r.time, v))
                    } else {
                        prev
                    },
                },
            }
        }
    }
}

/// The latest reading of `param` when it is at most 72 hours old.
pub open spec fn fresh_of(rs: Seq<Reading>, param: Seq<char>, now: int) -> Option<i32> {
    match latest_of(rs, param) {
        Some(p) => if now - p.0 <= FRESHNESS_LIMIT_MS {
            Some(p.1)
        } else {
            None
        },
        None => None,
    }
}

/// The freshest value of a parameter among the readings.
pub fn fresh_value(readings: &[Reading], param: &str, now: i64) -> (r: Option<i32>)
    requires
        is_instant(now as int),
        forall|i: int| 0 <= i < readings@.len() ==> is_instant(#[trigger] readings@[i].time as int),
    ensures
        r == fresh_of(readings@, param@, now as int),
{
    let p = param.to_owned();
    let mut latest: Option<(i64, i32)> = None;
    let mut i: usize = 0;
    while i < readings.len()
        invariant
            i <= readings@.len(),
            p@ == param@,
            latest == latest_of(readings@.take(i as int), param@),
            forall|j: int| 0 <= j < readings@.len() ==> is_instant(#[trigger] readings@[j].time as int),
            latest matches Some(l) ==> is_instant(l.0 as int),
        decreases readings.len() - i,
    {
        proof {
            assert(readings@.take(i as int + 1).drop_last() =~= readings@.take(i as int));
        }
        let r = &readings[i];
        if r.parameter_code == p {
            match r.value {
                Some(v) => {
                    latest = match latest {
                        None => Some((r.time, v)),
                        Some((t, old)) => if r.time > t {
                            Some((r.time, v))
                        } else {
                            Some((t, old))
                        },
                    };
                },
                None => {},
            }
        }
        i = i + 1;
    }
    proof {
        assert(readings@.take(i as int) =~= readings@);
    }
    match latest {
        Some((t, v)) => if now - t <= FRESHNESS_LIMIT_MS {
            Some(v)
        } else {
            None
        },
        None => None,
    }
}

proof fn lemma_latest_of(rs: Seq<Reading>, param: Seq<char>)
    ensures
        latest_of(rs, param) is None ==> forall|i: int|
            0 <= i < rs.len() && (#[trigger] rs[i]).parameter_code@ == param ==> rs[i].value is None,
        latest_of(rs, param) is Some ==> (exists|i: int|
            0 <= i < rs.len() && (#[trigger] rs[i]).parameter_code@ == param && rs[i].value == Some(
                (latest_of(rs, param)->0).1,
            ) && rs[i].time == (latest_of(rs, param)->0).0) && (forall|j: int|
            0 <= j < rs.len() && (#[trigger] rs[j]).parameter_code@ == param && rs[j].value is Some
                ==> rs[j].time <= (latest_of(rs, param)->0).0),
    decreases rs.len(),
{
    if rs.len() > 0 {
        let d = rs.drop_last();
        lemma_latest_of(d, param);
        assert forall|j: int| 0 <= j < d.len() implies #[trigger] rs[j] == d[j] by {}
        let n = rs.len() - 1;
        if let Some(p) = latest_of(rs, param) {
            if latest_of(d, param) == latest_of(rs, param) {
                let i = choose|i: int|
                    0 <= i < d.len() && (#[trigger] d[i]).parameter_code@ == param && d[i].value == Some(p.1)
                        && d[i].time == p.0;
                assert(rs[i] == d[i]);
            } else {
                assert(rs[n].parameter_code@ == param && rs[n].value == Some(p.1) && rs[n].time == p.0);
            }
        }
    }
}

/// Freshness: a parameter's current value is the value of its latest
/// numeric reading, and there is one exactly when some numeric reading of
/// it is at most 72 hours old.
pub proof fn freshness_law(rs: Seq<Reading>, param: Seq<char>, now: int)
    ensures
        fresh_of(rs, param, now) is None <==> forall|i: int|
            0 <= i < rs.len() && (#[trigger] rs[i]).parameter_code@ == param && rs[i].value is Some ==> now
                - rs[i].time > 259200000,
        fresh_of(rs, param, now) matches Some(v) ==> exists|i: int|
            0 <= i < rs.len() && (#[trigger] rs[i]).parameter_code@ == param && rs[i].value == Some(v) && now
                - rs[i].time <= 259200000 && forall|j: int|
                0 <= j < rs.len() && (#[trigger] rs[j]).parameter_code@ == param && rs[j].value is Some
                    ==> rs[j].time <= rs[i].time,
{
    lemma_latest_of(rs, param);
    if let Some(p) = latest_of(rs, param) {
        let i = choose|i: int|
            0 <= i < rs.len() && (#[trigger] rs[i]).parameter_code@ == param && rs[i].value == Some(p.1)
                && rs[i].time == p.0;
        if now - p.0 <= FRESHNESS_LIMIT_MS {
            assert(!(now - rs[i].time > 259200000));
        }
    }
}

/// The level trend by relative change of the means: with the early half's
/// mean `e` and the later half's `r`, `(r - e) / e >= 5%` is `Rising`,
/// else `(r - e) / e <= -5%` is `Falling`, else `Stable` (written over the
/// sums `se`, `sr` and counts `ne`, `nr`, the sign of `e` turning the
/// inequalities).
pub proof fn level_trend_law(s: Seq<i32>)
    ensures
        s.len() < 4 ==> level_trend_of(s) is None,
        s.len() >= 4 ==> ({
            let ne = s.len() / 2;
            let nr = s.len() - ne;
            let se = sum_of(ints_of(s.take(ne as int)));
            let sr = sum_of(ints_of(s.skip(ne as int)));
            let up = if se > 0 {
                20 * (sr * ne - se * nr) >= se * nr
            } else {
                20 * (sr * ne - se * nr) <= se * nr
            };
            let down = if se > 0 {
                20 * (sr * ne - se * nr) <= -(se * nr)
            } else {
                20 * (sr * ne - se * nr) >= -(se * nr)
            };
            &&& (se == 0 ==> level_trend_of(s) is None)
            &&& (se != 0 && up ==> level_trend_of(s) == Some(WaterLevelTrend::Rising))
            &&& (se != 0 && !up && down ==> level_trend_of(s) == Some(WaterLevelTrend::Falling))
            &&& (se != 0 && !up && !down ==> level_trend_of(s) == Some(WaterLevelTrend::Stable))
        }),
{
    if s.len() >= 4 {
        let ne = s.len() / 2;
        let nr = s.len() - ne;
        let se = sum_of(ints_of(s.take(ne as int)));
        let sr = sum_of(ints_of(s.skip(ne as int)));
        let nei = ne as int;
        assert((20 * sr) * nei - (21 * se) * nr == 20 * (sr * nei - se * nr) - se * nr) by (nonlinear_arith);
        assert((20 * sr) * nei - (19 * se) * nr == 20 * (sr * nei - se * nr) + se * nr) by (nonlinear_arith);
        let up = if se > 0 {
            20 * (sr * ne - se * nr) >= se * nr
        } else {
            20 * (sr * ne - se * nr) <= se * nr
        };
        let down = if se > 0 {
            20 * (sr * ne - se * nr) <= -(se * nr)
        } else {
            20 * (sr * ne - se * nr) >= -(se * nr)
        };
        assert(level_rising(sr, nr, se, nei) <==> up);
        assert(level_falling(sr, nr, se, nei) <==> down);
    }
}

/// What a gauge currently offers: fresh water temperature (converted to
/// hundredths of a degree Fahrenheit, clamped to `i32`) and discharge,
/// or `None` when none of temperature, discharge and gage height is fresh.
pub open spec fn current_water_of(rs: Seq<Reading>, now: int) -> Option<(Option<i32>, Option<i32>)> {
    let temp = match fresh_of(rs, PARAM_WATER_TEMP_C@, now) {
        Some(c) => Some(saturate(fahrenheit_of(c as int)) as i32),
        None => None,
    };
    let flow = fresh_of(rs, PARAM_DISCHARGE_CFS@, now);
    if temp is None && flow is None && fresh_of(rs, PARAM_GAGE_HEIGHT_FT@, now) is None {
        None
    } else {
        Some((temp, flow))
    }
}

/// The fresh readings of a candidate gauge.
pub fn current_water(readings: &[Reading], now: i64) -> (r: Option<(Option<i32>, Option<i32>)>)
    requires
        is_instant(now as int),
        forall|i: int| 0 <= i < readings@.len() ==> is_instant(#[trigger] readings@[i].time as int),
    ensures
        r == current_water_of(readings@, now as int),
{
    let temp = match fresh_value(readings, PARAM_WATER_TEMP_C, now) {
        Some(c) => Some(saturating_i32(celsius_to_fahrenheit(c))),
        None => None,
    };
    let flow = fresh_value(readings, PARAM_DISCHARGE_CFS, now);
    if temp.is_none() && flow.is_none() && fresh_value(readings, PARAM_GAGE_HEIGHT_FT, now).is_none() {
        None
    } else {
        Some((temp, flow))
    }
}


// ---------------------------------------------------------------------------
// Candidate gauges
// ---------------------------------------------------------------------------

/// A monitoring location near the requested point, with its distance in
/// hundredths of a mile.
#[derive(Debug)]
pub struct CandidateSite {
    pub id: String,
    pub name: String,
    pub distance_mi: i32,
}

pub struct CandidateView {
    pub id: Seq<char>,
    pub name: Seq<char>,
    pub distance_mi: i32,
}

impl View for CandidateSite {
    type V = CandidateView;

    open spec fn view(&self) -> CandidateView {
        CandidateView { id: self.id@, name: self.name@, distance_mi: self.distance_mi }
    }
}

pub open spec fn candidate_views(v: Seq<CandidateSite>) -> Seq<CandidateView> {
    v.map_values(|c: CandidateSite| c@)
}

/// The sites no farther than `radius`, in their order.
pub open spec fn within_radius(s: Seq<CandidateView>, radius: int) -> Seq<CandidateView>
    decreases s.len(),
{
    if s.len() == 0 {
        Seq::empty()
    } else {
        let t = within_radius(s.drop_last(), radius);
        if s.last().distance_mi <= radius {
            t.push(s.last())
        } else {
            t
        }
    }
}

/// Inserts `c` after every site no farther than it.
pub open spec fn insert_by_distance(s: Seq<CandidateView>, c: CandidateView) -> Seq<CandidateView>
    decreases s.len(),
{
    if s.len() == 0 {
        seq![c]
    } else if c.distance_mi < s[0].distance_mi {
        seq![c] + s
    } else {
        seq![s[0]] + insert_by_distance(s.drop_first(), c)
    }
}

/// The sites within `radius`, nearest first; sites at the same distance
/// keep their order.
pub open spec fn nearest_first(s: Seq<CandidateView>, radius: int) -> Seq<CandidateView>
    decreases s.len(),
{
    if s.len() == 0 {
        Seq::empty()
    } else {
        let t = nearest_first(s.drop_last(), radius);
        if s.last().distance_mi <= radius {
            insert_by_distance(t, s.last())
        } else {
            t
        }
    }
}

proof fn lemma_insert_by_distance_at(s: Seq<CandidateView>, c: CandidateView, p: int)
    requires
        0 <= p <= s.len(),
        forall|j: int| 0 <= j < p ==> #[trigger] s[j].distance_mi <= c.distance_mi,
        p < s.len() ==> c.distance_mi < s[p].distance_mi,
    ensures
        insert_by_distance(s, c) == s.insert(p, c),
    decreases p,
{
    if s.len() == 0 {
        assert(s.insert(0, c) =~= seq![c]);
    } else if p == 0 {
        assert(s.insert(0, c) =~= seq![c] + s);
    } else {
        let t = s.drop_first();
        assert forall|j: int| 0 <= j < p - 1 implies #[trigger] t[j].distance_mi <= c.distance_mi by {
            assert(t[j] == s[j + 1]);
        }
        if p < s.len() {
            assert(t[p - 1] == s[p]);
        }
        assert(s[0].distance_mi <= c.distance_mi);
        lemma_insert_by_distance_at(t, c, p - 1);
        assert(seq![s[0]] + t.insert(p - 1, c) =~= s.insert(p, c));
    }
}

/// Inserting keeps a nearest-first sequence nearest first.
proof fn lemma_insert_by_distance_sorted(s: Seq<CandidateView>, c: CandidateView)
    requires
        forall|i: int, j: int| 0 <= i < j < s.len() ==> #[trigger] s[i].distance_mi <= #[trigger] s[j].distance_mi,
    ensures
        forall|i: int, j: int|
            0 <= i < j < insert_by_distance(s, c).len() ==> #[trigger] insert_by_distance(s, c)[i].distance_mi
                <= #[trigger] insert_by_distance(s, c)[j].distance_mi,
        insert_by_distance(s, c).to_multiset() == s.to_multiset().insert(c),
    decreases s.len(),
{
    broadcast use vstd::seq_lib::group_to_multiset_ensures;

    let u = insert_by_distance(s, c);
    if s.len() == 0 {
        assert(u =~= seq![c]);
        assert(seq![c] =~= Seq::<CandidateView>::empty().push(c));
    } else if c.distance_mi < s[0].distance_mi {
        assert(u =~= seq![c] + s);
        assert forall|i: int, j: int| 0 <= i < j < u.len() implies #[trigger] u[i].distance_mi
            <= #[trigger] u[j].distance_mi by {
            if i > 0 {
                assert(u[i] == s[i - 1] && u[j] == s[j - 1]);
            } else {
                assert(u[j] == s[j - 1]);
                assert(s[0].distance_mi <= s[j - 1].distance_mi || j - 1 == 0);
            }
        }
        assert(u.to_multiset() =~= s.to_multiset().insert(c)) by {
            vstd::seq_lib::lemma_multiset_commutative(seq![c], s);
            assert(seq![c] =~= Seq::<CandidateView>::empty().push(c));
        }
    } else {
        let t = s.drop_first();
        assert forall|i: int, j: int| 0 <= i < j < t.len() implies #[trigger] t[i].distance_mi
            <= #[trigger] t[j].distance_mi by {
            assert(t[i] == s[i + 1] && t[j] == s[j + 1]);
        }
        lemma_insert_by_distance_sorted(t, c);
        let v = insert_by_distance(t, c);
        assert(u =~= seq![s[0]] + v);
        assert forall|k: int| 0 <= k < v.len() implies s[0].distance_mi <= #[trigger] v[k].distance_mi by {
            assert(v.to_multiset().count(v[k]) > 0);
            assert(v.to_multiset().count(v[k]) == t.to_multiset().insert(c).count(v[k]));
            if v[k] != c {
                assert(t.to_multiset().count(v[k]) > 0);
                assert(t.contains(v[k]));
                let m = choose|m: int| 0 <= m < t.len() && t[m] == v[k];
                assert(t[m] == s[m + 1]);
            }
        }
        assert forall|i: int, j: int| 0 <= i < j < u.len() implies #[trigger] u[i].distance_mi
            <= #[trigger] u[j].distance_mi by {
            assert(u[j] == v[j - 1]);
            if i > 0 {
                assert(u[i] == v[i - 1]);
            }
        }
        assert(u.to_multiset() =~= s.to_multiset().insert(c)) by {
            vstd::seq_lib::lemma_multiset_commutative(seq![s[0]], v);
            vstd::seq_lib::lemma_multiset_commutative(seq![s[0]], t);
            assert(s =~= seq![s[0]] + t);
        }
    }
}

/// The candidate ordering: nearest first, and exactly the sites within the
/// radius, none dropped and none added.
pub proof fn nearest_first_orders_the_sites_within_radius(s: Seq<CandidateView>, radius: int)
    ensures
        forall|i: int, j: int|
            0 <= i < j < nearest_first(s, radius).len() ==> #[trigger] nearest_first(s, radius)[i].distance_mi
                <= #[trigger] nearest_first(s, radius)[j].distance_mi,
        nearest_first(s, radius).to_multiset() == within_radius(s, radius).to_multiset(),
    decreases s.len(),
{
    broadcast use vstd::seq_lib::group_to_multiset_ensures;

    if s.len() > 0 {
        nearest_first_orders_the_sites_within_radius(s.drop_last(), radius);
        if s.last().distance_mi <= radius {
            lemma_insert_by_distance_sorted(nearest_first(s.drop_last(), radius), s.last());
        }
    }
}

/// The candidate gauges to try, in order: those within `radius` (hundredths
/// of a mile), nearest first, ties in the order the sites came.
pub fn nearest_candidates(candidates: Vec<CandidateSite>, radius: i32) -> (r: Vec<CandidateSite>)
    ensures
        candidate_views(r@) == nearest_first(candidate_views(candidates@), radius as int),
{
    let ghost all = candidate_views(candidates@);
    let mut rest = candidates;
    let mut out: Vec<CandidateSite> = Vec::new();
    let n = rest.len();
    let mut i: usize = 0;
    while i < n
        invariant
            n == all.len(),
            i <= n,
            rest@.len() == n - i,
            candidate_views(rest@) == all.skip(i as int),
            candidate_views(out@) == nearest_first(all.take(i as int), radius as int),
        decreases n - i,
    {
        proof {
            assert(candidate_views(rest@)[0] == all[i as int]);
        }
        let ghost old_rest = rest@;
        let c = rest.remove(0);
        proof {
            assert(rest@ =~= old_rest.drop_first());
            assert(candidate_views(rest@) =~= candidate_views(old_rest).drop_first());
            assert(candidate_views(rest@) =~= all.skip(i as int + 1));
            assert(all.take(i as int + 1).drop_last() =~= all.take(i as int));
            assert(all.take(i as int + 1).last() == c@);
        }
        if c.distance_mi <= radius {
            let mut p: usize = 0;
            while p < out.len() && out[p].distance_mi <= c.distance_mi
                invariant
                    p <= out@.len(),
                    forall|j: int| 0 <= j < p ==> #[trigger] out@[j].distance_mi <= c.distance_mi,
                decreases out@.len() - p,
            {
                p = p + 1;
            }
            proof {
                let ov = candidate_views(out@);
                assert forall|j: int| 0 <= j < p implies #[trigger] ov[j].distance_mi
                    <= c@.distance_mi by {
                    assert(ov[j] == out@[j]@);
                }
                if p < out@.len() {
                    assert(ov[p as int] == out@[p as int]@);
                }
                lemma_insert_by_distance_at(ov, c@, p as int);
            }
            let ghost before = out@;
            out.insert(p, c);
            proof {
                assert(candidate_views(out@) =~= candidate_views(before).insert(p as int, c@));
            }
        }
        i = i + 1;
    }
    proof {
        assert(all.take(n as int) =~= all);
    }
    out
}

// ---------------------------------------------------------------------------
// Daily series
// ---------------------------------------------------------------------------

/// Inserts `x` after every point not dated after it.
pub open spec fn insert_by_date(s: Seq<(CalendarDate, i32)>, x: (CalendarDate, i32)) -> Seq<
    (CalendarDate, i32),
>
    decreases s.len(),
{
    if s.len() == 0 {
        seq![x]
    } else if x.0.spec_before(s[0].0) {
        seq![x] + s
    } else {
        seq![s[0]] + insert_by_date(s.drop_first(), x)
    }
}

/// Stable sort of daily points by date, oldest first.
pub open spec fn by_date(s: Seq<(CalendarDate, i32)>) -> Seq<(CalendarDate, i32)>
    decreases s.len(),
{
    if s.len() == 0 {
        Seq::empty()
    } else {
        insert_by_date(by_date(s.drop_last()), s.last())
    }
}

proof fn lemma_insert_by_date_at(s: Seq<(CalendarDate, i32)>, x: (CalendarDate, i32), p: int)
    requires
        0 <= p <= s.len(),
        forall|j: int| 0 <= j < p ==> !x.0.spec_before(#[trigger] s[j].0),
        p < s.len() ==> x.0.spec_before(s[p].0),
    ensures
        insert_by_date(s, x) == s.insert(p, x),
    decreases p,
{
    if s.len() == 0 {
        assert(s.insert(0, x) =~= seq![x]);
    } else if p == 0 {
        assert(s.insert(0, x) =~= seq![x] + s);
    } else {
        let t = s.drop_first();
        assert forall|j: int| 0 <= j < p - 1 implies !x.0.spec_before(#[trigger] t[j].0) by {
            assert(t[j] == s[j + 1]);
        }
        if p < s.len() {
            assert(t[p - 1] == s[p]);
        }
        assert(!x.0.spec_before(s[0].0));
        lemma_insert_by_date_at(t, x, p - 1);
        assert(seq![s[0]] + t.insert(p - 1, x) =~= s.insert(p, x));
    }
}

/// Inserting keeps an oldest-first series oldest first.
proof fn lemma_insert_by_date_sorted(s: Seq<(CalendarDate, i32)>, x: (CalendarDate, i32))
    requires
        forall|i: int, j: int| 0 <= i < j < s.len() ==> !(#[trigger] s[j]).0.spec_before((#[trigger] s[i]).0),
    ensures
        forall|i: int, j: int|
            0 <= i < j < insert_by_date(s, x).len() ==> !(#[trigger] insert_by_date(s, x)[j]).0.spec_before(
                (#[trigger] insert_by_date(s, x)[i]).0,
            ),
        insert_by_date(s, x).to_multiset() == s.to_multiset().insert(x),
    decreases s.len(),
{
    broadcast use vstd::seq_lib::group_to_multiset_ensures;

    let u = insert_by_date(s, x);
    if s.len() == 0 {
        assert(u =~= seq![x]);
        assert(seq![x] =~= Seq::<(CalendarDate, i32)>::empty().push(x));
    } else if x.0.spec_before(s[0].0) {
        assert(u =~= seq![x] + s);
        assert forall|i: int, j: int| 0 <= i < j < u.len() implies !(#[trigger] u[j]).0.spec_before(
            (#[trigger] u[i]).0,
        ) by {
            if i > 0 {
                assert(u[i] == s[i - 1] && u[j] == s[j - 1]);
            } else {
                assert(u[j] == s[j - 1]);
                if j - 1 > 0 {
                    assert(!s[j - 1].0.spec_before(s[0].0));
                }
            }
        }
        assert(u.to_multiset() =~= s.to_multiset().insert(x)) by {
            vstd::seq_lib::lemma_multiset_commutative(seq![x], s);
            assert(seq![x] =~= Seq::<(CalendarDate, i32)>::empty().push(x));
        }
    } else {
        let t = s.drop_first();
        assert forall|i: int, j: int| 0 <= i < j < t.len() implies !(#[trigger] t[j]).0.spec_before(
            (#[trigger] t[i]).0,
        ) by {
            assert(t[i] == s[i + 1] && t[j] == s[j + 1]);
        }
        lemma_insert_by_date_sorted(t, x);
        let v = insert_by_date(t, x);
        assert(u =~= seq![s[0]] + v);
        assert forall|k: int| 0 <= k < v.len() implies !(#[trigger] v[k]).0.spec_before(s[0].0) by {
            assert(v.to_multiset().count(v[k]) > 0);
            assert(v.to_multiset().count(v[k]) == t.to_multiset().insert(x).count(v[k]));
            if v[k] != x {
                assert(t.to_multiset().count(v[k]) > 0);
                assert(t.contains(v[k]));
                let m = choose|m: int| 0 <= m < t.len() && t[m] == v[k];
                assert(t[m] == s[m + 1]);
            }
        }
        assert forall|i: int, j: int| 0 <= i < j < u.len() implies !(#[trigger] u[j]).0.spec_before(
            (#[trigger] u[i]).0,
        ) by {
            assert(u[j] == v[j - 1]);
            if i > 0 {
                assert(u[i] == v[i - 1]);
            }
        }
        assert(u.to_multiset() =~= s.to_multiset().insert(x)) by {
            vstd::seq_lib::lemma_multiset_commutative(seq![s[0]], v);
            vstd::seq_lib::lemma_multiset_commutative(seq![s[0]], t);
            assert(s =~= seq![s[0]] + t);
        }
    }
}

/// The daily-series ordering: oldest first, every point kept.
pub proof fn by_date_is_oldest_first(s: Seq<(CalendarDate, i32)>)
    ensures
        forall|i: int, j: int|
            0 <= i < j < by_date(s).len() ==> !(#[trigger] by_date(s)[j]).0.spec_before(
                (#[trigger] by_date(s)[i]).0,
            ),
        by_date(s).to_multiset() == s.to_multiset(),
    decreases s.len(),
{
    broadcast use vstd::seq_lib::group_to_multiset_ensures;

    if s.len() > 0 {
        by_date_is_oldest_first(s.drop_last());
        lemma_insert_by_date_sorted(by_date(s.drop_last()), s.last());
        assert(s.drop_last().push(s.last()) =~= s);
    }
}

/// Orders daily points by date, oldest first; points of the same date keep
/// their order.
pub fn sort_daily_series(points: &[(CalendarDate, i32)]) -> (r: Vec<(CalendarDate, i32)>)
    ensures
        r@ == by_date(points@),
{
    let mut out: Vec<(CalendarDate, i32)> = Vec::new();
    let mut i: usize = 0;
    while i < points.len()
        invariant
            i <= points@.len(),
            out@ == by_date(points@.take(i as int)),
        decreases points@.len() - i,
    {
        let x = points[i];
        proof {
            assert(points@.take(i as int + 1).drop_last() =~= points@.take(i as int));
            assert(points@.take(i as int + 1).last() == x);
        }
        let mut p: usize = 0;
        while p < out.len() && !x.0.is_before(&out[p].0)
            invariant
                p <= out@.len(),
                forall|j: int| 0 <= j < p ==> !x.0.spec_before(#[trigger] out@[j].0),
            decreases out@.len() - p,
        {
            p = p + 1;
        }
        proof {
            lemma_insert_by_date_at(out@, x, p as int);
        }
        out.insert(p, x);
        i = i + 1;
    }
    proof {
        assert(points@.take(points@.len() as int) =~= points@);
    }
    out
}

/// Daily water temperatures (hundredths of a degree Celsius) as
/// temperature points in hundredths of a degree Fahrenheit, clamped to
/// `i32`.
pub fn water_temp_points(series: &[(CalendarDate, i32)]) -> (r: Vec<TempPoint>)
    ensures
        r@.len() == series@.len(),
        forall|i: int|
            0 <= i < series@.len() ==> #[trigger] r@[i] == (TempPoint {
                date: series@[i].0,
                mean_temp_f: saturate(fahrenheit_of(series@[i].1 as int)) as i32,
            }),
{
    let mut out: Vec<TempPoint> = Vec::new();
    let mut i: usize = 0;
    while i < series.len()
        invariant
            i <= series@.len(),
            out@.len() == i,
            forall|j: int|
                0 <= j < i ==> #[trigger] out@[j] == (TempPoint {
                    date: series@[j].0,
                    mean_temp_f: saturate(fahrenheit_of(series@[j].1 as int)) as i32,
                }),
        decreases series@.len() - i,
    {
        let (date, c) = series[i];
        out.push(TempPoint { date, mean_temp_f: saturating_i32(celsius_to_fahrenheit(c)) });
        i = i + 1;
    }
    out
}

} // verus!
