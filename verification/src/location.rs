//! Locations: a zip code or a latitude/longitude pair. Coordinates are
//! millionths of a degree.
use vstd::prelude::*;
use vstd::string::StringExecFns;

verus! {

/// What the caller gives: a zip code, or coordinates.
#[derive(Debug)]
pub enum LocationInput {
    Zip { zip: String },
    LatLon { lat: i32, lon: i32 },
}

/// Coordinates, with a place name when a zip code was resolved.
#[derive(Debug)]
pub struct ResolvedLocation {
    pub lat: i32,
    pub lon: i32,
    pub resolved_name: Option<String>,
}

#[derive(Debug)]
pub enum LocationError {
    /// Latitude outside -90..=90.
    LatitudeOutOfRange(i32),
    /// Longitude outside -180..=180.
    LongitudeOutOfRange(i32),
    /// The geocoding service answered no place for the zip code.
    NoPlaces(String),
    /// The service's latitude is not a number.
    BadLatitude,
    /// The service's longitude is not a number.
    BadLongitude,
    /// The service could not be reached or refused the zip code (message).
    Unavailable(String),
}

/// 90 and 180 degrees in millionths.
pub const MAX_LATITUDE: i32 = 90000000;

pub const MAX_LONGITUDE: i32 = 180000000;

pub open spec fn latitude_ok(lat: int) -> bool {
    -MAX_LATITUDE <= lat <= MAX_LATITUDE
}

pub open spec fn longitude_ok(lon: int) -> bool {
    -MAX_LONGITUDE <= lon <= MAX_LONGITUDE
}

/// Direct coordinates pass through when both are in range; no place name
/// is looked up for them.
pub fn resolve_lat_lon(lat: i32, lon: i32) -> (r: Result<ResolvedLocation, LocationError>)
    ensures
        !latitude_ok(lat as int) ==> (r matches Err(LocationError::LatitudeOutOfRange(v)) && v
            == lat),
        latitude_ok(lat as int) && !longitude_ok(lon as int) ==> (r matches Err(
            LocationError::LongitudeOutOfRange(v),
        ) && v == lon),
        latitude_ok(lat as int) && longitude_ok(lon as int) ==> (r matches Ok(l) && l.lat == lat
            && l.lon == lon && l.resolved_name is None),
{
    if !(-MAX_LATITUDE <= lat && lat <= MAX_LATITUDE) {
        return Err(LocationError::LatitudeOutOfRange(lat));
    }
    if !(-MAX_LONGITUDE <= lon && lon <= MAX_LONGITUDE) {
        return Err(LocationError::LongitudeOutOfRange(lon));
    }
    Ok(ResolvedLocation { lat, lon, resolved_name: None })
}

/// A place the geocoding service returns for a zip code; coordinates are
/// `None` where its strings are not numbers.
#[derive(Debug)]
pub struct ZipPlace {
    pub place_name: String,
    pub state_abbr: String,
    pub latitude: Option<i32>,
    pub longitude: Option<i32>,
}

pub open spec fn opt_text(o: Option<String>) -> Option<Seq<char>> {
    match o {
        Some(s) => Some(s@),
        None => None,
    }
}

/// `"{place}, {state}"`.
pub open spec fn place_label(place: Seq<char>, state: Seq<char>) -> Seq<char> {
    place + ", "@ + state
}

/// The first place of the answer, named `"{place}, {state}"`; an answer
/// without places, or with a non-numeric coordinate, is an error.
pub fn resolve_zip_places(zip: &String, places: &Vec<ZipPlace>) -> (r: Result<ResolvedLocation, LocationError>)
    ensures
        places@.len() == 0 ==> (r matches Err(LocationError::NoPlaces(z)) && z@ == zip@),
        places@.len() > 0 && places@[0].latitude is None ==> r matches Err(LocationError::BadLatitude),
        places@.len() > 0 && places@[0].latitude is Some && places@[0].longitude is None ==> r matches Err(LocationError::BadLongitude),
        places@.len() > 0 && places@[0].latitude is Some && places@[0].longitude is Some ==> (r matches Ok(l)
            && l.lat == places@[0].latitude->0 && l.lon == places@[0].longitude->0
            && opt_text(l.resolved_name) == Some(place_label(places@[0].place_name@, places@[0].state_abbr@))),
{
    if places.len() == 0 {
        return Err(LocationError::NoPlaces(zip.clone()));
    }
    let place = &places[0];
    let lat = match place.latitude {
        Some(v) => v,
        None => return Err(LocationError::BadLatitude),
    };
    let lon = match place.longitude {
        Some(v) => v,
        None => return Err(LocationError::BadLongitude),
    };
    let name = place.place_name.clone().concat(", ").concat(place.state_abbr.as_str());
    Ok(ResolvedLocation { lat, lon, resolved_name: Some(name) })
}

} // verus!
