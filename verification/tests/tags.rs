use fishcast::conditions::{
    PressureTrend, Resolved, ResolvedConditions, SeasonPhase, Sky, SolunarPeriod, Source, TempTrend,
    TimeOfDay, WaterBodyType, WaterClarity, WaterLevelTrend,
};
use fishcast::tags::{derive_tags, TagSet};

#[test]
fn derives_expected_tags_from_full_conditions() {
    let mut c = ResolvedConditions::default();
    c.season_phase = Some(Resolved::new(SeasonPhase::Summer, Source::Derived));
    c.sky = Some(Resolved::new(Sky::Overcast, Source::Fetched));
    c.time_of_day = Some(Resolved::new(TimeOfDay::Day, Source::Derived));
    c.wind_mph = Some(Resolved::new(1200, Source::Fetched));
    c.water_clarity = Some(Resolved::new(WaterClarity::Stained, Source::Provided));
    c.water_body_type = Some(Resolved::new(WaterBodyType::Reservoir, Source::Provided));
    c.pressure_trend = Some(Resolved::new(PressureTrend::Falling, Source::Derived));
    c.temp_trend = Some(Resolved::new(TempTrend::Warming, Source::Derived));
    c.solunar_period = Some(Resolved::new(SolunarPeriod::Major, Source::Derived));

    let tags = derive_tags(&c);
    let expected = TagSet::from_vec(
        [
            "season:summer",
            "light:overcast",
            "wind:moderate",
            "clarity:stained",
            "water_body:reservoir",
            "pressure_trend:falling",
            "temp_trend:warming",
            "solunar:major",
        ]
        .iter()
        .map(|s| s.to_string())
        .collect(),
    );
    assert!(tags.same_tags(&expected));
}

#[test]
fn unknown_fields_produce_no_tags() {
    let c = ResolvedConditions::default();
    assert!(derive_tags(&c).is_empty());
}

#[test]
fn light_tag_requires_both_sky_and_time_of_day() {
    let mut c = ResolvedConditions::default();
    c.sky = Some(Resolved::new(Sky::Clear, Source::Fetched));
    // time_of_day missing
    assert!(derive_tags(&c).to_vec().iter().all(|t| !t.starts_with("light:")));
}

#[test]
fn light_and_wind_bands() {
    let mut c = ResolvedConditions::default();
    c.sky = Some(Resolved::new(Sky::Clear, Source::Fetched));
    c.time_of_day = Some(Resolved::new(TimeOfDay::Dusk, Source::Derived));
    c.wind_mph = Some(Resolved::new(499, Source::Fetched));
    c.water_level_trend = Some(Resolved::new(WaterLevelTrend::Rising, Source::Provided));
    let tags = derive_tags(&c);
    assert_eq!(tags.len(), 3);
    assert!(tags.contains(&"light:low".to_string()));
    assert!(tags.contains(&"wind:calm".to_string()));
    assert!(tags.contains(&"water_level_trend:rising".to_string()));

    c.time_of_day = Some(Resolved::new(TimeOfDay::Day, Source::Derived));
    c.wind_mph = Some(Resolved::new(1800, Source::Fetched));
    let tags = derive_tags(&c);
    assert!(tags.contains(&"light:bright".to_string()));
    assert!(tags.contains(&"wind:windy".to_string()));
}

#[test]
fn one_tag_per_known_axis() {
    let mut c = ResolvedConditions::default();
    assert_eq!(derive_tags(&c).len(), 0);
    c.sky = Some(Resolved::new(Sky::Clear, Source::Fetched));
    assert_eq!(derive_tags(&c).len(), 0);
    c.time_of_day = Some(Resolved::new(TimeOfDay::Day, Source::Derived));
    c.pressure_trend = Some(Resolved::new(PressureTrend::Stable, Source::Derived));
    c.temp_trend = Some(Resolved::new(TempTrend::Stable, Source::Derived));
    c.water_level_trend = Some(Resolved::new(WaterLevelTrend::Stable, Source::Provided));
    // the three "stable" tags differ by axis
    assert_eq!(derive_tags(&c).len(), 4);
}
