use fishcast::location::{resolve_lat_lon, resolve_zip_places, LocationError, ZipPlace};

/// Millionths of a degree.
fn micro(x: f64) -> i32 {
    (x * 1_000_000.0).round() as i32
}

#[test]
fn lat_lon_passthrough() {
    let loc = resolve_lat_lon(micro(36.13), micro(-97.07)).unwrap();
    assert_eq!(loc.lat, micro(36.13));
    assert_eq!(loc.lon, micro(-97.07));
    assert!(loc.resolved_name.is_none());
}

#[test]
fn lat_out_of_range_rejected() {
    assert!(resolve_lat_lon(micro(91.0), micro(0.0)).is_err());
    assert!(resolve_lat_lon(micro(-91.0), micro(0.0)).is_err());
}

#[test]
fn lon_out_of_range_rejected() {
    assert!(resolve_lat_lon(micro(0.0), micro(181.0)).is_err());
    assert!(resolve_lat_lon(micro(0.0), micro(-181.0)).is_err());
}

#[test]
fn boundary_values_accepted() {
    assert!(resolve_lat_lon(micro(90.0), micro(180.0)).is_ok());
    assert!(resolve_lat_lon(micro(-90.0), micro(-180.0)).is_ok());
}

#[test]
fn out_of_range_errors_carry_the_value() {
    assert!(matches!(resolve_lat_lon(micro(91.0), micro(0.0)), Err(LocationError::LatitudeOutOfRange(v)) if v == micro(91.0)));
    assert!(matches!(resolve_lat_lon(micro(0.0), micro(-181.0)), Err(LocationError::LongitudeOutOfRange(v)) if v == micro(-181.0)));
    // latitude is checked first
    assert!(matches!(resolve_lat_lon(micro(95.0), micro(200.0)), Err(LocationError::LatitudeOutOfRange(_))));
}

#[test]
fn zip_places_resolve_to_first_place() {
    let zip = "74074".to_string();
    let places = vec![
        ZipPlace {
            place_name: "Stillwater".to_string(),
            state_abbr: "OK".to_string(),
            latitude: Some(micro(36.1156)),
            longitude: Some(micro(-97.0584)),
        },
        ZipPlace {
            place_name: "Elsewhere".to_string(),
            state_abbr: "KS".to_string(),
            latitude: Some(0),
            longitude: Some(0),
        },
    ];
    let loc = resolve_zip_places(&zip, &places).unwrap();
    assert_eq!(loc.lat, micro(36.1156));
    assert_eq!(loc.lon, micro(-97.0584));
    assert_eq!(loc.resolved_name.as_deref(), Some("Stillwater, OK"));
}

#[test]
fn zip_without_places_or_numbers_is_an_error() {
    let zip = "00000".to_string();
    assert!(matches!(resolve_zip_places(&zip, &vec![]), Err(LocationError::NoPlaces(z)) if z == "00000"));
    let bad = vec![ZipPlace {
        place_name: "X".to_string(),
        state_abbr: "Y".to_string(),
        latitude: None,
        longitude: Some(1),
    }];
    assert!(matches!(resolve_zip_places(&zip, &bad), Err(LocationError::BadLatitude)));
    let bad = vec![ZipPlace {
        place_name: "X".to_string(),
        state_abbr: "Y".to_string(),
        latitude: Some(1),
        longitude: None,
    }];
    assert!(matches!(resolve_zip_places(&zip, &bad), Err(LocationError::BadLongitude)));
}
