//! Categorical tags derived from resolved conditions, one axis at a time:
//! `season:`, `light:`, `wind:`, `clarity:`, `water_body:`,
//! `pressure_trend:`, `temp_trend:`, `solunar:`, `water_level_trend:`.
use vstd::prelude::*;
use vstd::string::StringExecFns;
use crate::conditions::{
    PressureTrend, ResolvedConditions, SeasonPhase, Sky, SolunarPeriod, TempTrend, TimeOfDay,
    WaterBodyType, WaterClarity, WaterLevelTrend,
};

verus! {

/// A set of tags, each held once.
pub struct TagSet {
    tags: Vec<String>,
}

/// The views of a sequence of strings.
pub open spec fn string_views(v: Seq<String>) -> Seq<Seq<char>> {
    v.map_values(|s: String| s@)
}

impl TagSet {
    #[verifier::type_invariant]
    closed spec fn distinct(self) -> bool {
        string_views(self.tags@).no_duplicates()
    }

    /// The tags held.
    pub closed spec fn tag_views(self) -> Set<Seq<char>> {
        string_views(self.tags@).to_set()
    }

    pub fn new() -> (r: TagSet)
        ensures
            r.tag_views() == Set::<Seq<char>>::empty(),
    {
        let r = TagSet { tags: Vec::new() };
        assert(r.tag_views() =~= Set::<Seq<char>>::empty());
        r
    }

    /// Whether `tag` is held.
    pub fn contains(&self, tag: &String) -> (r: bool)
        ensures
            r == self.tag_views().contains(tag@),
    {
        let mut i: usize = 0;
        while i < self.tags.len()
            invariant
                i <= self.tags@.len(),
                forall|j: int| 0 <= j < i ==> self.tags@[j]@ != tag@,
            decreases self.tags.len() - i,
        {
            if self.tags[i] == *tag {
                proof {
                    assert(string_views(self.tags@)[i as int] == tag@);
                }
                return true;
            }
            i = i + 1;
        }
        proof {
            if string_views(self.tags@).contains(tag@) {
                let j = choose|j: int|
                    0 <= j < string_views(self.tags@).len() && string_views(self.tags@)[j]
                        == tag@;
                assert(self.tags@[j]@ == tag@);
            }
        }
        false
    }

    /// Adds `tag`; true when it was not held before.
    pub fn insert(&mut self, tag: String) -> (r: bool)
        ensures
            final(self).tag_views() == old(self).tag_views().insert(tag@),
            r == !old(self).tag_views().contains(tag@),
    {
        proof {
            use_type_invariant(&*self);
        }
        if self.contains(&tag) {
            proof {
                assert(self.tag_views().insert(tag@) =~= self.tag_views());
            }
            return false;
        }
        let ghost old_tags = self.tags@;
        let mut tags = Vec::new();
        std::mem::swap(&mut tags, &mut self.tags);
        tags.push(tag);
        proof {
            assert(string_views(tags@) =~= string_views(old_tags).push(tag@));
            string_views(old_tags).lemma_push_to_set_commute(tag@);
            assert forall|i: int, j: int|
                0 <= i < string_views(tags@).len() && 0 <= j < string_views(tags@).len() && i
                    != j implies string_views(tags@)[i] != string_views(tags@)[j] by {
                if i < old_tags.len() && j < old_tags.len() {
                    assert(string_views(tags@)[i] == string_views(old_tags)[i]);
                    assert(string_views(tags@)[j] == string_views(old_tags)[j]);
                } else if i < old_tags.len() {
                    assert(string_views(old_tags).contains(string_views(tags@)[i]));
                } else if j < old_tags.len() {
                    assert(string_views(old_tags).contains(string_views(tags@)[j]));
                }
            }
        }
        self.tags = tags;
        true
    }

    /// Number of tags held.
    pub fn len(&self) -> (r: usize)
        ensures
            r == self.tag_views().len(),
    {
        proof {
            use_type_invariant(self);
            string_views(self.tags@).unique_seq_to_set();
        }
        self.tags.len()
    }

    pub fn is_empty(&self) -> (r: bool)
        ensures
            r == (self.tag_views().len() == 0),
    {
        self.len() == 0
    }

    /// The tags held, each once.
    pub fn to_vec(&self) -> (r: Vec<String>)
        ensures
            string_views(r@).to_set() == self.tag_views(),
            string_views(r@).no_duplicates(),
    {
        proof {
            use_type_invariant(self);
        }
        let mut out: Vec<String> = Vec::new();
        let mut i: usize = 0;
        while i < self.tags.len()
            invariant
                i <= self.tags@.len(),
                string_views(out@) =~= string_views(self.tags@).take(i as int),
            decreases self.tags.len() - i,
        {
            out.push(self.tags[i].clone());
            proof {
                assert(string_views(self.tags@).take(i as int + 1) =~= string_views(self.tags@).take(
                    i as int,
                ).push(self.tags@[i as int]@));
            }
            i = i + 1;
        }
        proof {
            assert(string_views(self.tags@).take(i as int) =~= string_views(self.tags@));
        }
        out
    }

    /// A set holding the given tags.
    pub fn from_vec(tags: Vec<String>) -> (r: TagSet)
        ensures
            r.tag_views() == string_views(tags@).to_set(),
    {
        let mut set = TagSet::new();
        let mut i: usize = 0;
        while i < tags.len()
            invariant
                i <= tags@.len(),
                set.tag_views() =~= string_views(tags@).take(i as int).to_set(),
            decreases tags.len() - i,
        {
            proof {
                assert(string_views(tags@).take(i as int + 1) =~= string_views(tags@).take(
                    i as int,
                ).push(tags@[i as int]@));
                string_views(tags@).take(i as int).lemma_push_to_set_commute(tags@[i as int]@);
            }
            set.insert(tags[i].clone());
            i = i + 1;
        }
        proof {
            assert(string_views(tags@).take(i as int) =~= string_views(tags@));
        }
        set
    }

    /// Whether both sets hold the same tags.
    pub fn same_tags(&self, other: &TagSet) -> (r: bool)
        ensures
            r == (self.tag_views() == other.tag_views()),
    {
        proof {
            use_type_invariant(self);
            use_type_invariant(other);
            string_views(self.tags@).unique_seq_to_set();
            string_views(other.tags@).unique_seq_to_set();
        }
        if self.tags.len() != other.tags.len() {
            return false;
        }
        let mut i: usize = 0;
        while i < self.tags.len()
            invariant
                i <= self.tags@.len(),
                forall|j: int| 0 <= j < i ==> other.tag_views().contains(#[trigger] self.tags@[j]@),
            decreases self.tags.len() - i,
        {
            if !other.contains(&self.tags[i]) {
                proof {
                    assert(self.tag_views().contains(self.tags@[i as int]@)) by {
                        assert(string_views(self.tags@)[i as int] == self.tags@[i as int]@);
                    }
                }
                return false;
            }
            i = i + 1;
        }
        proof {
            assert(self.tag_views().subset_of(other.tag_views())) by {
                assert forall|t: Seq<char>| self.tag_views().contains(t) implies other.tag_views().contains(t) by {
                    let j = choose|j: int|
                        0 <= j < string_views(self.tags@).len() && string_views(self.tags@)[j] == t;
                    assert(self.tags@[j]@ == t);
                }
            }
            vstd::set_lib::lemma_subset_equality(self.tag_views(), other.tag_views());
        }
        true
    }
}

// ---------------------------------------------------------------------------
// Tag derivation
// ---------------------------------------------------------------------------

pub open spec fn season_name(v: SeasonPhase) -> Seq<char> {
    match v {
        SeasonPhase::Winter => "winter"@,
        SeasonPhase::PreSpawn => "pre_spawn"@,
        SeasonPhase::Spawn => "spawn"@,
        SeasonPhase::PostSpawn => "post_spawn"@,
        SeasonPhase::Summer => "summer"@,
        SeasonPhase::Fall => "fall"@,
    }
}

/// `low` in dawn, dusk or night light, `overcast` under an overcast sky
/// (which wins), `bright` otherwise.
pub open spec fn light_name(sky: Sky, tod: TimeOfDay) -> Seq<char> {
    match (sky, tod) {
        (Sky::Overcast, _) => "overcast"@,
        (_, TimeOfDay::Dawn) | (_, TimeOfDay::Dusk) | (_, TimeOfDay::Night) => "low"@,
        _ => "bright"@,
    }
}

/// Wind bands in hundredths of a mph: under 5 calm, under 10 light, under 18
/// moderate, else windy.
pub open spec fn wind_name(mph: int) -> Seq<char> {
    if mph < 500 {
        "calm"@
    } else if mph < 1000 {
        "light"@
    } else if mph < 1800 {
        "moderate"@
    } else {
        "windy"@
    }
}

pub open spec fn clarity_name(v: WaterClarity) -> Seq<char> {
    match v {
        WaterClarity::Clear => "clear"@,
        WaterClarity::Stained => "stained"@,
        WaterClarity::Muddy => "muddy"@,
    }
}

pub open spec fn water_body_name(v: WaterBodyType) -> Seq<char> {
    match v {
        WaterBodyType::Pond => "pond"@,
        WaterBodyType::NaturalLake => "natural_lake"@,
        WaterBodyType::Reservoir => "reservoir"@,
        WaterBodyType::River => "river"@,
    }
}

pub open spec fn pressure_trend_name(v: PressureTrend) -> Seq<char> {
    match v {
        PressureTrend::Falling => "falling"@,
        PressureTrend::Rising => "rising"@,
        PressureTrend::Stable => "stable"@,
    }
}

pub open spec fn temp_trend_name(v: TempTrend) -> Seq<char> {
    match v {
        TempTrend::Stable => "stable"@,
        TempTrend::Warming => "warming"@,
        TempTrend::Cooling => "cooling"@,
        TempTrend::ColdFrontRecent => "cold_front_recent"@,
        TempTrend::RecoveringFromFront => "recovering_from_front"@,
    }
}

pub open spec fn solunar_name(v: SolunarPeriod) -> Seq<char> {
    match v {
        SolunarPeriod::Major => "major"@,
        SolunarPeriod::Minor => "minor"@,
        SolunarPeriod::Neutral => "neutral"@,
    }
}

pub open spec fn water_level_name(v: WaterLevelTrend) -> Seq<char> {
    match v {
        WaterLevelTrend::Rising => "rising"@,
        WaterLevelTrend::Falling => "falling"@,
        WaterLevelTrend::Stable => "stable"@,
    }
}

/// `axis:value`.
pub open spec fn tag_text(axis: Seq<char>, value: Seq<char>) -> Seq<char> {
    axis + value
}

pub open spec fn season_tag_of(c: ResolvedConditions) -> Option<Seq<char>> {
    match c.season_phase {
        Some(r) => Some(tag_text("season:"@, season_name(r.value))),
        None => None,
    }
}

/// Needs both the sky and the time of day.
pub open spec fn light_tag_of(c: ResolvedConditions) -> Option<Seq<char>> {
    match (c.sky, c.time_of_day) {
        (Some(s), Some(t)) => Some(tag_text("light:"@, light_name(s.value, t.value))),
        _ => None,
    }
}

pub open spec fn wind_tag_of(c: ResolvedConditions) -> Option<Seq<char>> {
    match c.wind_mph {
        Some(r) => Some(tag_text("wind:"@, wind_name(r.value as int))),
        None => None,
    }
}

pub open spec fn clarity_tag_of(c: ResolvedConditions) -> Option<Seq<char>> {
    match c.water_clarity {
        Some(r) => Some(tag_text("clarity:"@, clarity_name(r.value))),
        None => None,
    }
}

pub open spec fn water_body_tag_of(c: ResolvedConditions) -> Option<Seq<char>> {
    match c.water_body_type {
        Some(r) => Some(tag_text("water_body:"@, water_body_name(r.value))),
        None => None,
    }
}

pub open spec fn pressure_trend_tag_of(c: ResolvedConditions) -> Option<Seq<char>> {
    match c.pressure_trend {
        Some(r) => Some(tag_text("pressure_trend:"@, pressure_trend_name(r.value))),
        None => None,
    }
}

pub open spec fn temp_trend_tag_of(c: ResolvedConditions) -> Option<Seq<char>> {
    match c.temp_trend {
        Some(r) => Some(tag_text("temp_trend:"@, temp_trend_name(r.value))),
        None => None,
    }
}

pub open spec fn solunar_tag_of(c: ResolvedConditions) -> Option<Seq<char>> {
    match c.solunar_period {
        Some(r) => Some(tag_text("solunar:"@, solunar_name(r.value))),
        None => None,
    }
}

pub open spec fn water_level_tag_of(c: ResolvedConditions) -> Option<Seq<char>> {
    match c.water_level_trend {
        Some(r) => Some(tag_text("water_level_trend:"@, water_level_name(r.value))),
        None => None,
    }
}

/// The axis tags, in derivation order.
pub open spec fn axis_tags(c: ResolvedConditions) -> Seq<Option<Seq<char>>> {
    seq![
        season_tag_of(c),
        light_tag_of(c),
        wind_tag_of(c),
        clarity_tag_of(c),
        water_body_tag_of(c),
        pressure_trend_tag_of(c),
        temp_trend_tag_of(c),
        solunar_tag_of(c),
        water_level_tag_of(c),
    ]
}

/// The present tags among `opts`.
pub open spec fn present_tags(opts: Seq<Option<Seq<char>>>) -> Set<Seq<char>>
    decreases opts.len(),
{
    if opts.len() == 0 {
        Set::empty()
    } else {
        match opts.last() {
            Some(t) => present_tags(opts.drop_last()).insert(t),
            None => present_tags(opts.drop_last()),
        }
    }
}

/// Every tag the conditions support: one per axis whose inputs are known.
pub open spec fn tags_of(c: ResolvedConditions) -> Set<Seq<char>> {
    present_tags(axis_tags(c))
}

/// How many axes have their inputs known: the light axis needs both the
/// sky and the time of day, every other axis one field.
pub open spec fn known_axes(c: ResolvedConditions) -> int {
    (if c.season_phase is Some { 1int } else { 0 })
        + (if c.sky is Some && c.time_of_day is Some { 1int } else { 0 })
        + (if c.wind_mph is Some { 1int } else { 0 })
        + (if c.water_clarity is Some { 1int } else { 0 })
        + (if c.water_body_type is Some { 1int } else { 0 })
        + (if c.pressure_trend is Some { 1int } else { 0 })
        + (if c.temp_trend is Some { 1int } else { 0 })
        + (if c.solunar_period is Some { 1int } else { 0 })
        + (if c.water_level_trend is Some { 1int } else { 0 })
}

/// The number of present entries.
pub open spec fn count_present(opts: Seq<Option<Seq<char>>>) -> int
    decreases opts.len(),
{
    if opts.len() == 0 {
        0
    } else {
        count_present(opts.drop_last()) + (if opts.last() is Some { 1int } else { 0 })
    }
}

proof fn lemma_present_tags(opts: Seq<Option<Seq<char>>>)
    requires
        forall|i: int, j: int|
            0 <= i < j < opts.len() && opts[i] is Some && opts[j] is Some ==> #[trigger] opts[i]
                != #[trigger] opts[j],
    ensures
        present_tags(opts).finite(),
        present_tags(opts).len() == count_present(opts),
        forall|t: Seq<char>|
            #[trigger] present_tags(opts).contains(t) ==> exists|i: int|
                0 <= i < opts.len() && opts[i] == Some(t),
    decreases opts.len(),
{
    if opts.len() > 0 {
        let d = opts.drop_last();
        assert forall|i: int, j: int|
            0 <= i < j < d.len() && d[i] is Some && d[j] is Some implies #[trigger] d[i] != #[trigger] d[j] by {
            assert(d[i] == opts[i] && d[j] == opts[j]);
        }
        lemma_present_tags(d);
        assert forall|t: Seq<char>| #[trigger] present_tags(opts).contains(t) implies exists|i: int|
            0 <= i < opts.len() && opts[i] == Some(t) by {
            if present_tags(d).contains(t) {
                let i = choose|i: int| 0 <= i < d.len() && d[i] == Some(t);
                assert(opts[i] == d[i]);
            } else {
                assert(opts[opts.len() - 1] == Some(t));
            }
        }
        if opts.last() is Some {
            let t = opts.last()->0;
            if present_tags(d).contains(t) {
                let i = choose|i: int| 0 <= i < d.len() && d[i] == Some(t);
                assert(opts[i] == d[i]);
                assert(opts[i] != opts[opts.len() - 1]);
            }
        }
    }
}

/// Tags of different axes differ: their prefixes differ within the first
/// seven characters.
proof fn lemma_axis_tags_distinct(c: ResolvedConditions)
    ensures
        forall|i: int, j: int|
            0 <= i < j < axis_tags(c).len() && axis_tags(c)[i] is Some && axis_tags(c)[j] is Some
                ==> #[trigger] axis_tags(c)[i] != #[trigger] axis_tags(c)[j],
{
    reveal_strlit("season:");
    reveal_strlit("light:");
    reveal_strlit("wind:");
    reveal_strlit("clarity:");
    reveal_strlit("water_body:");
    reveal_strlit("pressure_trend:");
    reveal_strlit("temp_trend:");
    reveal_strlit("solunar:");
    reveal_strlit("water_level_trend:");
    let a = axis_tags(c);
    assert forall|i: int, j: int|
        0 <= i < j < a.len() && a[i] is Some && a[j] is Some implies #[trigger] a[i] != #[trigger] a[j] by {
        let ti = a[i]->0;
        let tj = a[j]->0;
        assert(ti[0] != tj[0] || ti[1] != tj[1] || ti[6] != tj[6]);
    }
}

/// One tag per known axis: the tag set has exactly as many tags as the
/// conditions have known axes, so all-unknown conditions give no tags.
pub proof fn one_tag_per_known_axis(c: ResolvedConditions)
    ensures
        tags_of(c).finite(),
        tags_of(c).len() == known_axes(c),
{
    lemma_axis_tags_distinct(c);
    lemma_present_tags(axis_tags(c));
    reveal_with_fuel(count_present, 10);
    let a = axis_tags(c);
    assert(a.len() == 9);
    assert(count_present(a) == known_axes(c));
}

proof fn lemma_present_contains(opts: Seq<Option<Seq<char>>>, i: int)
    requires
        0 <= i < opts.len(),
        opts[i] is Some,
    ensures
        present_tags(opts).contains(opts[i]->0),
    decreases opts.len(),
{
    if i < opts.len() - 1 {
        lemma_present_contains(opts.drop_last(), i);
        assert(opts.drop_last()[i] == opts[i]);
    }
}

/// Only the light axis gives tags starting with `l`.
proof fn lemma_only_light_starts_with_l(c: ResolvedConditions, i: int)
    requires
        0 <= i < 9,
        i != 1,
        axis_tags(c)[i] is Some,
    ensures
        (axis_tags(c)[i]->0)[0] != 'l',
{
    reveal_strlit("season:");
    reveal_strlit("wind:");
    reveal_strlit("clarity:");
    reveal_strlit("water_body:");
    reveal_strlit("pressure_trend:");
    reveal_strlit("temp_trend:");
    reveal_strlit("solunar:");
    reveal_strlit("water_level_trend:");
}

/// The light tag: under an overcast sky it is `light:overcast`; otherwise
/// `light:low` at dawn, dusk and night and `light:bright` by day. Exactly
/// one of the three is present when both the sky and the time of day are
/// known, and none otherwise.
pub proof fn light_tag_law(c: ResolvedConditions)
    ensures
        (c.sky is None || c.time_of_day is None) ==> !tags_of(c).contains("light:low"@) && !tags_of(
            c,
        ).contains("light:bright"@) && !tags_of(c).contains("light:overcast"@),
        c.sky matches Some(s) && c.time_of_day is Some && s.value == Sky::Overcast ==> tags_of(
            c,
        ).contains("light:overcast"@) && !tags_of(c).contains("light:low"@) && !tags_of(c).contains(
            "light:bright"@,
        ),
        c.sky matches Some(s) && c.time_of_day matches Some(t) && s.value != Sky::Overcast
            && t.value != TimeOfDay::Day ==> tags_of(c).contains("light:low"@) && !tags_of(
            c,
        ).contains("light:bright"@) && !tags_of(c).contains("light:overcast"@),
        c.sky matches Some(s) && c.time_of_day matches Some(t) && s.value != Sky::Overcast
            && t.value == TimeOfDay::Day ==> tags_of(c).contains("light:bright"@) && !tags_of(
            c,
        ).contains("light:low"@) && !tags_of(c).contains("light:overcast"@),
{
    reveal_strlit("light:");
    reveal_strlit("low");
    reveal_strlit("bright");
    reveal_strlit("overcast");
    reveal_strlit("light:low");
    reveal_strlit("light:bright");
    reveal_strlit("light:overcast");
    let a = axis_tags(c);
    lemma_axis_tags_distinct(c);
    lemma_present_tags(a);
    assert forall|x: Seq<char>| x[0] == 'l' && #[trigger] tags_of(c).contains(x) implies a[1] == Some(x) by {
        let i = choose|i: int| 0 <= i < a.len() && a[i] == Some(x);
        if i != 1 {
            lemma_only_light_starts_with_l(c, i);
        }
    }
    assert("light:low"@[0] == 'l' && "light:bright"@[0] == 'l' && "light:overcast"@[0] == 'l');
    assert("light:low"@ != "light:bright"@) by {
        assert("light:low"@[6] != "light:bright"@[6]);
    }
    assert("light:low"@ != "light:overcast"@) by {
        assert("light:low"@[6] != "light:overcast"@[6]);
    }
    assert("light:bright"@ != "light:overcast"@) by {
        assert("light:bright"@[6] != "light:overcast"@[6]);
    }
    if a[1] is Some {
        lemma_present_contains(a, 1);
        let l = a[1]->0;
        assert(l == "light:"@ + light_name(c.sky->0.value, c.time_of_day->0.value));
        assert("light:"@ + "low"@ =~= "light:low"@);
        assert("light:"@ + "bright"@ =~= "light:bright"@);
        assert("light:"@ + "overcast"@ =~= "light:overcast"@);
    }
}

/// Only the wind axis gives tags starting with `wi`.
proof fn lemma_only_wind_starts_with_wi(c: ResolvedConditions, i: int)
    requires
        0 <= i < 9,
        i != 2,
        axis_tags(c)[i] is Some,
    ensures
        (axis_tags(c)[i]->0)[0] != 'w' || (axis_tags(c)[i]->0)[1] != 'i',
{
    reveal_strlit("season:");
    reveal_strlit("light:");
    reveal_strlit("clarity:");
    reveal_strlit("water_body:");
    reveal_strlit("pressure_trend:");
    reveal_strlit("temp_trend:");
    reveal_strlit("solunar:");
    reveal_strlit("water_level_trend:");
}

/// The wind tag by band (hundredths of a mph): under 5 mph `wind:calm`,
/// under 10 `wind:light`, under 18 `wind:moderate`, else `wind:windy`;
/// exactly one of them when the wind is known, none otherwise.
pub proof fn wind_tag_law(c: ResolvedConditions)
    ensures
        c.wind_mph is None ==> !tags_of(c).contains("wind:calm"@) && !tags_of(c).contains("wind:light"@)
            && !tags_of(c).contains("wind:moderate"@) && !tags_of(c).contains("wind:windy"@),
        c.wind_mph matches Some(r) ==> (tags_of(c).contains("wind:calm"@) <==> r.value < 500) && (tags_of(
            c,
        ).contains("wind:light"@) <==> 500 <= r.value < 1000) && (tags_of(c).contains("wind:moderate"@)
            <==> 1000 <= r.value < 1800) && (tags_of(c).contains("wind:windy"@) <==> r.value >= 1800),
{
    reveal_strlit("wind:");
    reveal_strlit("calm");
    reveal_strlit("light");
    reveal_strlit("moderate");
    reveal_strlit("windy");
    reveal_strlit("wind:calm");
    reveal_strlit("wind:light");
    reveal_strlit("wind:moderate");
    reveal_strlit("wind:windy");
    let a = axis_tags(c);
    lemma_axis_tags_distinct(c);
    lemma_present_tags(a);
    assert forall|x: Seq<char>| x.len() > 1 && x[0] == 'w' && x[1] == 'i' && #[trigger] tags_of(c).contains(x) implies a[2] == Some(x) by {
        let i = choose|i: int| 0 <= i < a.len() && a[i] == Some(x);
        if i != 2 {
            lemma_only_wind_starts_with_wi(c, i);
        }
    }
    assert("wind:calm"@[5] == 'c' && "wind:light"@[5] == 'l' && "wind:moderate"@[5] == 'm'
        && "wind:windy"@[5] == 'w');
    if a[2] is Some {
        lemma_present_contains(a, 2);
        assert("wind:"@ + "calm"@ =~= "wind:calm"@);
        assert("wind:"@ + "light"@ =~= "wind:light"@);
        assert("wind:"@ + "moderate"@ =~= "wind:moderate"@);
        assert("wind:"@ + "windy"@ =~= "wind:windy"@);
    }
}

fn tag(axis: &str, value: &str) -> (r: String)
    ensures
        r@ == tag_text(axis@, value@),
{
    axis.to_owned().concat(value)
}

fn season_tag(c: &ResolvedConditions) -> (r: Option<String>)
    ensures
        r matches Some(s) ==> season_tag_of(*c) == Some(s@),
        r is None ==> season_tag_of(*c) is None,
{
    let v = match &c.season_phase {
        Some(r) => r.value,
        None => return None,
    };
    let s = match v {
        SeasonPhase::Winter => "winter",
        SeasonPhase::PreSpawn => "pre_spawn",
        SeasonPhase::Spawn => "spawn",
        SeasonPhase::PostSpawn => "post_spawn",
        SeasonPhase::Summer => "summer",
        SeasonPhase::Fall => "fall",
    };
    Some(tag("season:", s))
}

fn light_tag(c: &ResolvedConditions) -> (r: Option<String>)
    ensures
        r matches Some(s) ==> light_tag_of(*c) == Some(s@),
        r is None ==> light_tag_of(*c) is None,
{
    let sky = match &c.sky {
        Some(r) => r.value,
        None => return None,
    };
    let tod = match &c.time_of_day {
        Some(r) => r.value,
        None => return None,
    };
    let level = match (sky, tod) {
        (Sky::Overcast, _) => "overcast",
        (_, TimeOfDay::Dawn) | (_, TimeOfDay::Dusk) | (_, TimeOfDay::Night) => "low",
        _ => "bright",
    };
    Some(tag("light:", level))
}

fn wind_tag(c: &ResolvedConditions) -> (r: Option<String>)
    ensures
        r matches Some(s) ==> wind_tag_of(*c) == Some(s@),
        r is None ==> wind_tag_of(*c) is None,
{
    let mph = match &c.wind_mph {
        Some(r) => r.value,
        None => return None,
    };
    let level = if mph < 500 {
        "calm"
    } else if mph < 1000 {
        "light"
    } else if mph < 1800 {
        "moderate"
    } else {
        "windy"
    };
    Some(tag("wind:", level))
}

fn clarity_tag(c: &ResolvedConditions) -> (r: Option<String>)
    ensures
        r matches Some(s) ==> clarity_tag_of(*c) == Some(s@),
        r is None ==> clarity_tag_of(*c) is None,
{
    let v = match &c.water_clarity {
        Some(r) => r.value,
        None => return None,
    };
    let s = match v {
        WaterClarity::Clear => "clear",
        WaterClarity::Stained => "stained",
        WaterClarity::Muddy => "muddy",
    };
    Some(tag("clarity:", s))
}

fn water_body_tag(c: &ResolvedConditions) -> (r: Option<String>)
    ensures
        r matches Some(s) ==> water_body_tag_of(*c) == Some(s@),
        r is None ==> water_body_tag_of(*c) is None,
{
    let v = match &c.water_body_type {
        Some(r) => r.value,
        None => return None,
    };
    let s = match v {
        WaterBodyType::Pond => "pond",
        WaterBodyType::NaturalLake => "natural_lake",
        WaterBodyType::Reservoir => "reservoir",
        WaterBodyType::River => "river",
    };
    Some(tag("water_body:", s))
}

fn pressure_trend_tag(c: &ResolvedConditions) -> (r: Option<String>)
    ensures
        r matches Some(s) ==> pressure_trend_tag_of(*c) == Some(s@),
        r is None ==> pressure_trend_tag_of(*c) is None,
{
    let v = match &c.pressure_trend {
        Some(r) => r.value,
        None => return None,
    };
    let s = match v {
        PressureTrend::Falling => "falling",
        PressureTrend::Rising => "rising",
        PressureTrend::Stable => "stable",
    };
    Some(tag("pressure_trend:", s))
}

fn temp_trend_tag(c: &ResolvedConditions) -> (r: Option<String>)
    ensures
        r matches Some(s) ==> temp_trend_tag_of(*c) == Some(s@),
        r is None ==> temp_trend_tag_of(*c) is None,
{
    let v = match &c.temp_trend {
        Some(r) => r.value,
        None => return None,
    };
    let s = match v {
        TempTrend::Stable => "stable",
        TempTrend::Warming => "warming",
        TempTrend::Cooling => "cooling",
        TempTrend::ColdFrontRecent => "cold_front_recent",
        TempTrend::RecoveringFromFront => "recovering_from_front",
    };
    Some(tag("temp_trend:", s))
}

fn solunar_tag(c: &ResolvedConditions) -> (r: Option<String>)
    ensures
        r matches Some(s) ==> solunar_tag_of(*c) == Some(s@),
        r is None ==> solunar_tag_of(*c) is None,
{
    let v = match &c.solunar_period {
        Some(r) => r.value,
        None => return None,
    };
    let s = match v {
        SolunarPeriod::Major => "major",
        SolunarPeriod::Minor => "minor",
        SolunarPeriod::Neutral => "neutral",
    };
    Some(tag("solunar:", s))
}

fn water_level_trend_tag(c: &ResolvedConditions) -> (r: Option<String>)
    ensures
        r matches Some(s) ==> water_level_tag_of(*c) == Some(s@),
        r is None ==> water_level_tag_of(*c) is None,
{
    let v = match &c.water_level_trend {
        Some(r) => r.value,
        None => return None,
    };
    let s = match v {
        WaterLevelTrend::Rising => "rising",
        WaterLevelTrend::Falling => "falling",
        WaterLevelTrend::Stable => "stable",
    };
    Some(tag("water_level_trend:", s))
}

/// Adds the tag, if any, and keeps `tags` equal to the present tags of the
/// axes seen so far.
fn add_tag(tags: &mut TagSet, t: Option<String>, Ghost(seen): Ghost<Seq<Option<Seq<char>>>>, Ghost(next): Ghost<Option<Seq<char>>>)
    requires
        old(tags).tag_views() == present_tags(seen),
        t matches Some(s) ==> next == Some(s@),
        t is None ==> next is None,
    ensures
        final(tags).tag_views() == present_tags(seen.push(next)),
{
    assert(seen.push(next).drop_last() =~= seen);
    match t {
        Some(s) => {
            tags.insert(s);
        },
        None => {},
    }
}

/// Derives the tag set of resolved conditions: one tag per axis whose
/// inputs are known.
pub fn derive_tags(c: &ResolvedConditions) -> (r: TagSet)
    ensures
        r.tag_views() == tags_of(*c),
{
    let mut tags = TagSet::new();
    let ghost all = axis_tags(*c);
    assert(present_tags(all.take(0)) =~= Set::<Seq<char>>::empty());
    add_tag(&mut tags, season_tag(c), Ghost(all.take(0)), Ghost(all[0]));
    assert(all.take(0).push(all[0]) =~= all.take(1));
    add_tag(&mut tags, light_tag(c), Ghost(all.take(1)), Ghost(all[1]));
    assert(all.take(1).push(all[1]) =~= all.take(2));
    add_tag(&mut tags, wind_tag(c), Ghost(all.take(2)), Ghost(all[2]));
    assert(all.take(2).push(all[2]) =~= all.take(3));
    add_tag(&mut tags, clarity_tag(c), Ghost(all.take(3)), Ghost(all[3]));
    assert(all.take(3).push(all[3]) =~= all.take(4));
    add_tag(&mut tags, water_body_tag(c), Ghost(all.take(4)), Ghost(all[4]));
    assert(all.take(4).push(all[4]) =~= all.take(5));
    add_tag(&mut tags, pressure_trend_tag(c), Ghost(all.take(5)), Ghost(all[5]));
    assert(all.take(5).push(all[5]) =~= all.take(6));
    add_tag(&mut tags, temp_trend_tag(c), Ghost(all.take(6)), Ghost(all[6]));
    assert(all.take(6).push(all[6]) =~= all.take(7));
    add_tag(&mut tags, solunar_tag(c), Ghost(all.take(7)), Ghost(all[7]));
    assert(all.take(7).push(all[7]) =~= all.take(8));
    add_tag(&mut tags, water_level_trend_tag(c), Ghost(all.take(8)), Ghost(all[8]));
    assert(all.take(8).push(all[8]) =~= all);
    tags
}

} // verus!
