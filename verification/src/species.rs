//! Supported species. Adding one is a new profile plus its rules file.
use vstd::prelude::*;

verus! {

#[derive(Clone, Copy, Debug)]
pub struct SpeciesProfile {
    pub id: &'static str,
    pub display_name: &'static str,
    /// Spawning water temperatures, hundredths of a degree Fahrenheit.
    pub spawn_temp_range_f: (i32, i32),
    /// Where the species' rules file lives.
    pub rules_file: &'static str,
}

pub open spec fn is_largemouth_bass(p: SpeciesProfile) -> bool {
    &&& p.id@ == "largemouth_bass"@
    &&& p.display_name@ == "Largemouth Bass"@
    &&& p.spawn_temp_range_f == (6000i32, 7500i32)
    &&& p.rules_file@ == "rules/largemouth_bass.toml"@
}

/// Largemouth bass spawn between 60F and 75F.
pub fn largemouth_bass() -> (r: SpeciesProfile)
    ensures
        is_largemouth_bass(r),
{
    SpeciesProfile {
        id: "largemouth_bass",
        display_name: "Largemouth Bass",
        spawn_temp_range_f: (6000, 7500),
        rules_file: "rules/largemouth_bass.toml",
    }
}

/// Every supported species.
pub fn all() -> (r: Vec<SpeciesProfile>)
    ensures
        r@.len() == 1,
        is_largemouth_bass(r@[0]),
{
    vec![largemouth_bass()]
}

/// The supported species with this id.
pub fn find(id: &str) -> (r: Option<SpeciesProfile>)
    ensures
        id@ == "largemouth_bass"@ ==> (r matches Some(p) && is_largemouth_bass(p)),
        id@ != "largemouth_bass"@ ==> r is None,
{
    let profiles = all();
    let wanted = id.to_owned();
    let mut i: usize = 0;
    while i < profiles.len()
        invariant
            i <= profiles@.len(),
            profiles@.len() == 1,
            is_largemouth_bass(profiles@[0]),
            wanted@ == id@,
            forall|j: int| 0 <= j < i ==> profiles@[j].id@ != id@,
        decreases profiles.len() - i,
    {
        let p = profiles[i];
        if p.id.to_owned() == wanted {
            return Some(p);
        }
        i = i + 1;
    }
    None
}

} // verus!
