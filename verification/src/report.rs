//! A suggestion report: species lookup, tags, rule matching and the
//! favorability outlook, around the resolved location and conditions.
use vstd::prelude::*;
use crate::conditions::{ConditionOverrides, ResolvedConditions, SeasonPhase};
use crate::location::{LocationError, LocationInput, ResolvedLocation};
use crate::outlook::FishingOutlook;
use crate::rules::{
    merge_structures, merge_suggestions, structure_views, suggestion_views, top_rules, RuleEngine,
    StructureSuggestion, Suggestion,
};
use crate::species::{find, is_largemouth_bass, SpeciesProfile};
use crate::tags::{derive_tags, tags_of};

verus! {

/// Requests name a species or get largemouth bass.
pub fn default_species() -> (r: String)
    ensures
        r@ == "largemouth_bass"@,
{
    "largemouth_bass".to_owned()
}

/// A suggestion request. `at` (an instant) is accepted but conditions
/// always resolve as of the actual request time.
#[derive(Debug)]
pub struct SuggestRequest {
    pub species: String,
    pub location: LocationInput,
    pub at: Option<i64>,
    pub conditions: ConditionOverrides,
}

#[derive(Debug)]
pub struct SuggestResponse {
    pub location: ResolvedLocation,
    pub resolved_conditions: ResolvedConditions,
    pub season_phase: Option<SeasonPhase>,
    pub suggestions: Vec<Suggestion>,
    pub target_structure: Vec<StructureSuggestion>,
    pub fishing_outlook: FishingOutlook,
}

#[derive(Debug)]
pub enum ReportError {
    UnknownSpecies(String),
    LocationResolution(LocationError),
}

/// The profile of the requested species, or `UnknownSpecies`.
pub fn lookup_species(species: &String) -> (r: Result<SpeciesProfile, ReportError>)
    ensures
        species@ == "largemouth_bass"@ ==> (r matches Ok(p) && is_largemouth_bass(p)),
        species@ != "largemouth_bass"@ ==> (r matches Err(ReportError::UnknownSpecies(s)) && s@
            == species@),
{
    match find(species.as_str()) {
        Some(p) => Ok(p),
        None => Err(ReportError::UnknownSpecies(species.clone())),
    }
}

/// A species' rule engine.
pub struct SpeciesEngine {
    pub species_id: String,
    pub engine: RuleEngine,
}

/// The engine registered for `id`: the first with that species id.
pub fn engine_for<'a>(engines: &'a [SpeciesEngine], id: &str) -> (r: Option<&'a RuleEngine>)
    ensures
        r is None <==> forall|i: int| 0 <= i < engines@.len() ==> #[trigger] engines@[i].species_id@ != id@,
        r matches Some(e) ==> exists|i: int|
            0 <= i < engines@.len() && #[trigger] engines@[i].species_id@ == id@ && engines@[i].engine == *e
                && forall|j: int| 0 <= j < i ==> #[trigger] engines@[j].species_id@ != id@,
{
    let wanted = id.to_owned();
    let mut i: usize = 0;
    while i < engines.len()
        invariant
            i <= engines@.len(),
            wanted@ == id@,
            forall|j: int| 0 <= j < i ==> #[trigger] engines@[j].species_id@ != id@,
        decreases engines.len() - i,
    {
        if engines[i].species_id == wanted {
            return Some(&engines[i].engine);
        }
        i = i + 1;
    }
    None
}

/// Assembles the response: the tags of the resolved conditions are matched
/// against the species' rules, keeping the `rule_top_n` best.
pub fn build_response(
    engine: &RuleEngine,
    rule_top_n: usize,
    location: ResolvedLocation,
    resolved_conditions: ResolvedConditions,
    fishing_outlook: FishingOutlook,
) -> (r: SuggestResponse)
    ensures
        r.location == location,
        r.resolved_conditions == resolved_conditions,
        r.fishing_outlook == fishing_outlook,
        r.season_phase == match resolved_conditions.season_phase {
            Some(p) => Some(p.value),
            None => None,
        },
        suggestion_views(r.suggestions@) == merge_suggestions(
            top_rules(engine@, tags_of(resolved_conditions), rule_top_n as int),
        ),
        structure_views(r.target_structure@) == merge_structures(
            top_rules(engine@, tags_of(resolved_conditions), rule_top_n as int),
        ),
{
    let tag_set = derive_tags(&resolved_conditions);
    let (suggestions, target_structure) = engine.suggest(&tag_set, rule_top_n);
    let season_phase = match &resolved_conditions.season_phase {
        Some(p) => Some(p.value),
        None => None,
    };
    SuggestResponse {
        location,
        resolved_conditions,
        season_phase,
        suggestions,
        target_structure,
        fishing_outlook,
    }
}

} // verus!
