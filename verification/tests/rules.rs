use fishcast::rules::{BaitOption, Confidence, Rule, RuleEngine, RuleFile};
use fishcast::tags::TagSet;

fn s(x: &str) -> String {
    x.to_string()
}

fn strings(v: &[&str]) -> Vec<String> {
    v.iter().map(|x| x.to_string()).collect()
}

fn bait(category: &str, rig: Option<&str>, variant: Option<&str>, colors: &[&str]) -> BaitOption {
    BaitOption { category: s(category), rig: rig.map(s), variant: variant.map(s), colors: strings(colors) }
}

/// The four-rule fixture of the rules module, written out as values.
fn fixture() -> RuleEngine {
    RuleEngine::from_rule_file(RuleFile { rules: fixture_rules() })
}

fn fixture_rules() -> Vec<Rule> {
    vec![
        Rule {
            id: s("post_frontal_tough_bite"),
            requires: strings(&["light:bright", "temp_trend:cold_front_recent"]),
            weight: 10,
            baits: vec![
                bait("finesse_worm", Some("shaky_head"), None, &["green_pumpkin", "watermelon"]),
                bait("jig", None, Some("football"), &["brown_orange", "green_pumpkin"]),
            ],
            retrieve: s("slow, deadstick pauses"),
            target_structure: strings(&["deeper cover fish pulled to after the front", "shaded docks"]),
            why: s("Post-frontal bright skies plus a recent cold snap - fish are tight to cover and slow"),
        },
        Rule {
            id: s("stained_water_wind_reaction"),
            requires: strings(&["clarity:stained", "wind:moderate"]),
            weight: 8,
            baits: vec![
                bait("spinnerbait", None, None, &["chartreuse_white"]),
                bait("chatterbait", None, None, &["chartreuse_white", "black_blue"]),
            ],
            retrieve: s("steady, moderate speed"),
            target_structure: strings(&["wind-blown banks", "vegetation edges"]),
            why: s("Wind plus stained water hide the bait's flaws - reaction baits shine"),
        },
        Rule {
            id: s("low_light_topwater"),
            requires: strings(&["light:low"]),
            weight: 6,
            baits: vec![bait("topwater_walker", None, None, &["bone", "black"])],
            retrieve: s("walk-the-dog, steady cadence"),
            target_structure: strings(&["points", "flats near spawning bays"]),
            why: s("Low light puts fish shallow and aggressive"),
        },
        Rule {
            id: s("windy_reaction_general"),
            requires: strings(&["wind:moderate"]),
            weight: 8,
            baits: vec![bait("chatterbait", None, None, &["white"])],
            retrieve: s("steady"),
            target_structure: strings(&["wind-blown points"]),
            why: s("Wind alone favors reaction baits"),
        },
    ]
}

fn tags(v: &[&str]) -> TagSet {
    TagSet::from_vec(strings(v))
}

#[test]
fn matches_only_rules_whose_requires_is_a_subset_of_tags() {
    let engine = fixture();
    let tags = tags(&["clarity:stained", "wind:moderate"]);
    let (suggestions, structures) = engine.suggest(&tags, 10);

    // stained_water_wind_reaction (requires both) and windy_reaction_general
    // (requires just wind) should fire; post_frontal and low_light should not.
    let categories: Vec<&str> = suggestions.iter().map(|s| s.bait_category.as_str()).collect();
    assert!(categories.contains(&"spinnerbait"));
    assert!(categories.contains(&"chatterbait"));
    assert!(!categories.contains(&"finesse_worm"));
    assert!(!categories.contains(&"topwater_walker"));

    let features: Vec<&str> = structures.iter().map(|s| s.feature.as_str()).collect();
    assert!(features.contains(&"wind-blown banks"));
    assert!(features.contains(&"wind-blown points"));
}

#[test]
fn weight_desc_then_id_tie_break_ordering() {
    let engine = fixture();
    // both stained_water_wind_reaction and windy_reaction_general have weight 8 and
    // both fire on this tag set; chatterbait is contributed by both (merge test),
    // spinnerbait only by the higher-alphabetical-id rule.
    let tags = tags(&["clarity:stained", "wind:moderate"]);
    let (suggestions, _) = engine.suggest(&tags, 10);
    let chatterbait = suggestions.iter().find(|s| s.bait_category == "chatterbait").unwrap();
    // "stained_water_wind_reaction" < "windy_reaction_general" lexicographically,
    // so it wins the merge and its colors should be first.
    assert_eq!(chatterbait.colors, vec!["chartreuse_white", "black_blue"]);
    assert_eq!(chatterbait.why.len(), 2);
}

#[test]
fn top_n_truncation() {
    let engine = fixture();
    let tags = tags(&[
        "clarity:stained",
        "wind:moderate",
        "light:bright",
        "temp_trend:cold_front_recent",
        "light:low", // contradictory with light:bright but fine for this synthetic test
    ]);
    let (suggestions, _) = engine.suggest(&tags, 1);
    // only the single highest-weight rule's baits should appear
    assert_eq!(suggestions.len(), 2); // post_frontal_tough_bite (weight 10) contributes 2 baits
}

#[test]
fn no_matching_rules_returns_empty() {
    let engine = fixture();
    let tags = tags(&["season:winter"]);
    let (suggestions, structures) = engine.suggest(&tags, 10);
    assert!(suggestions.is_empty());
    assert!(structures.is_empty());
}

#[test]
fn merged_suggestions_carry_rank_order_and_confidence() {
    let engine = fixture();
    let tags = tags(&["clarity:stained", "wind:moderate", "light:low"]);
    let (suggestions, structures) = engine.suggest(&tags, 10);
    let order: Vec<&str> = suggestions.iter().map(|s| s.bait_category.as_str()).collect();
    assert_eq!(order, vec!["spinnerbait", "chatterbait", "topwater_walker"]);
    assert_eq!(suggestions[0].confidence, Confidence::High);
    assert_eq!(suggestions[2].confidence, Confidence::Medium);
    assert_eq!(suggestions[1].retrieve, "steady, moderate speed");
    assert_eq!(
        suggestions[1].why,
        vec![
            "Wind plus stained water hide the bait's flaws - reaction baits shine".to_string(),
            "Wind alone favors reaction baits".to_string(),
        ]
    );
    let features: Vec<&str> = structures.iter().map(|s| s.feature.as_str()).collect();
    assert_eq!(
        features,
        vec!["wind-blown banks", "vegetation edges", "wind-blown points", "points", "flats near spawning bays"]
    );
    assert_eq!(engine.rules().len(), 4);
    // top_n of zero keeps nothing
    let (none, _) = engine.suggest(&tags, 0);
    assert!(none.is_empty());
}

#[test]
fn tag_set_holds_each_tag_once() {
    let mut set = TagSet::new();
    assert!(set.insert(s("wind:calm")));
    assert!(!set.insert(s("wind:calm")));
    assert_eq!(set.len(), 1);
    assert!(set.contains(&s("wind:calm")));
    assert!(!set.contains(&s("wind:light")));
    assert!(set.same_tags(&tags(&["wind:calm", "wind:calm"])));
}

#[test]
fn repeated_category_and_feature_merge_into_one_entry() {
    let rule = |id: &str, weight: u32, baits: Vec<BaitOption>, features: &[&str], why: &str| Rule {
        id: s(id),
        requires: strings(&["wind:moderate"]),
        weight,
        baits,
        retrieve: s(id),
        target_structure: strings(features),
        why: s(why),
    };
    let engine = RuleEngine::from_rule_file(RuleFile {
        rules: vec![
            rule("b_low", 3, vec![bait("jig", None, None, &["black"])], &["points", "docks"], "low"),
            rule(
                "a_high",
                9,
                vec![bait("jig", Some("swim"), None, &["white"]), bait("jig", None, None, &["blue"])],
                &["points"],
                "high",
            ),
        ],
    });
    let (suggestions, structures) = engine.suggest(&tags(&["wind:moderate"]), 10);
    assert_eq!(suggestions.len(), 1);
    assert_eq!(suggestions[0].colors, strings(&["white"]));
    assert_eq!(suggestions[0].rig, Some(s("swim")));
    assert_eq!(suggestions[0].retrieve, "a_high");
    assert_eq!(suggestions[0].confidence, Confidence::High);
    assert_eq!(suggestions[0].why, strings(&["high", "high", "low"]));
    let features: Vec<&str> = structures.iter().map(|s| s.feature.as_str()).collect();
    assert_eq!(features, vec!["points", "docks"]);
    assert_eq!(structures[0].why, strings(&["high", "low"]));
    assert_eq!(structures[1].why, strings(&["low"]));
}

#[test]
fn rule_order_in_the_file_does_not_matter() {
    let forward = fixture();
    let mut reversed = fixture_rules();
    reversed.reverse();
    let backward = RuleEngine::new(reversed);
    let tags = tags(&["clarity:stained", "wind:moderate", "light:low", "light:bright", "temp_trend:cold_front_recent"]);
    for top_n in [0, 1, 2, 3, 10] {
        let (s1, t1) = forward.suggest(&tags, top_n);
        let (s2, t2) = backward.suggest(&tags, top_n);
        assert_eq!(format!("{s1:?}"), format!("{s2:?}"));
        assert_eq!(format!("{t1:?}"), format!("{t2:?}"));
    }
}
