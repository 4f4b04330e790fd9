use fishcast::report::{default_species, lookup_species, ReportError};
use fishcast::species::{all, find};

#[test]
fn find_unknown_species_returns_none() {
    assert!(find("striped_bass").is_none());
}

#[test]
fn largemouth_bass_is_registered() {
    let profile = find("largemouth_bass").expect("largemouth_bass registered");
    assert_eq!(profile.display_name, "Largemouth Bass");
    assert_eq!(profile.spawn_temp_range_f, (6000, 7500));
    assert_eq!(all().len(), 1);
    assert_eq!(default_species(), "largemouth_bass");
}

#[test]
fn unknown_species_is_a_report_error() {
    assert!(lookup_species(&"largemouth_bass".to_string()).is_ok());
    assert!(matches!(lookup_species(&"pike".to_string()), Err(ReportError::UnknownSpecies(s)) if s == "pike"));
}
