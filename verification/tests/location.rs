use outside::geo::{expand_us_state, state_name_for_code};
use outside::location::{select_geo_result, LocationData, LocationError, LookupRequest};

#[test]
fn expands_state_codes_ignoring_case_and_spaces() {
    assert_eq!(expand_us_state("MA"), Some("Massachusetts".to_string()));
    assert_eq!(expand_us_state(" tx "), Some("Texas".to_string()));
    assert_eq!(expand_us_state("dc"), Some("District of Columbia".to_string()));
    assert_eq!(expand_us_state("Massachusetts"), None);
    assert_eq!(expand_us_state("ZZ"), None);
    assert_eq!(expand_us_state(""), None);
    for s in ["ny", "Ny", "nY", " \tNY \n"] {
        assert_eq!(expand_us_state(s), Some("New York".to_string()));
    }
}

#[test]
fn state_code_table_needs_upper_case() {
    assert_eq!(state_name_for_code(&['W', 'Y']), Some("Wyoming".to_string()));
    assert_eq!(state_name_for_code(&['w', 'y']), None);
    assert_eq!(state_name_for_code(&['W']), None);
}

#[test]
fn normalizes_city_names() {
    assert_eq!(LocationData::normalize_city_name("new york"), "New York");
    assert_eq!(LocationData::normalize_city_name("  los   angeles "), "Los Angeles");
    assert_eq!(LocationData::normalize_city_name("SAN FRANCISCO"), "San Francisco");
    assert_eq!(LocationData::normalize_city_name(""), "");
}

#[test]
fn normalizes_location_strings() {
    assert_eq!(LocationData::normalize_location_string("london, gb"), "London, GB");
    assert_eq!(LocationData::normalize_location_string("boston, ma, us"), "Boston, Massachusetts, US");
    assert_eq!(LocationData::normalize_location_string("toronto, ontario, ca"), "Toronto, Ontario, CA");
    assert_eq!(LocationData::normalize_location_string(""), "");
    assert_eq!(LocationData::normalize_location_string("Somewhere"), "Somewhere");
    assert_eq!(LocationData::normalize_location_string("a, b, c, d"), "a, b, c, d");
}

#[test]
fn normalize_rebuilds_the_label() {
    let mut location = LocationData {
        city: "new york".to_string(),
        country_code: "us".to_string(),
        location: "new york, us".to_string(),
        created_at: 0,
        state: String::new(),
    };
    location.normalize();
    assert_eq!(location.city, "New York");
    assert_eq!(location.country_code, "US");
    assert_eq!(location.location, "New York, US");

    let mut with_state = LocationData {
        city: "boston".to_string(),
        country_code: "us".to_string(),
        location: String::new(),
        created_at: 5,
        state: "Massachusetts".to_string(),
    };
    with_state.normalize();
    assert_eq!(with_state.location, "Boston, Massachusetts, US");
    assert_eq!(with_state.created_at, 5);
}

#[test]
fn normalize_keeps_label_without_country() {
    let mut location = LocationData {
        city: "paris".to_string(),
        country_code: String::new(),
        location: "old label".to_string(),
        created_at: 0,
        state: String::new(),
    };
    location.normalize();
    assert_eq!(location.city, "Paris");
    assert_eq!(location.location, "old label");
}

#[test]
fn from_lookup_normalizes() {
    let data = LocationData::from_lookup("berlin".to_string(), "de".to_string(), String::new(), 42);
    assert_eq!(data.city, "Berlin");
    assert_eq!(data.country_code, "DE");
    assert_eq!(data.location, "Berlin, DE");
    assert_eq!(data.created_at, 42);
}

#[test]
fn plans_lookups() {
    assert!(matches!(LocationData::plan_lookup(""), Ok(LookupRequest::ByIp)));
    match LocationData::plan_lookup("new york, us") {
        Ok(LookupRequest::ByCity { name, country_code }) => {
            assert_eq!(name, "New York");
            assert_eq!(country_code, "US");
        }
        _ => panic!("expected a city lookup"),
    }
    match LocationData::plan_lookup("boston , ma , us") {
        Ok(LookupRequest::ByCityInState { name, state, country_code }) => {
            assert_eq!(name, "Boston");
            assert_eq!(state, "ma");
            assert_eq!(country_code, "US");
        }
        _ => panic!("expected a city lookup within a state"),
    }
    assert!(matches!(LocationData::plan_lookup("Nowhere"), Err(LocationError::InvalidFormat)));
}

#[test]
fn selects_geocoding_results() {
    let regions = vec![Some("Georgia".to_string()), None, Some("Massachusetts".to_string())];
    assert_eq!(select_geo_result("Boston", "", "US", &regions).ok(), Some(0));
    assert_eq!(select_geo_result("Boston", "ma", "US", &regions).ok(), Some(2));
    assert_eq!(select_geo_result("Boston", "GEORGIA", "US", &regions).ok(), Some(0));
    match select_geo_result("Boston", "TX", "US", &regions) {
        Err(e) => assert_eq!(
            e.message(),
            "No Boston found in state/region 'TX' (country US). Open-Meteo returned: Georgia, Massachusetts"
        ),
        Ok(_) => panic!("expected no match"),
    }
    match select_geo_result("Boston", "TX", "US", &vec![None]) {
        Err(LocationError::NoStateMatch { alternatives, .. }) => assert_eq!(alternatives, "no admin1 data"),
        _ => panic!("expected no match"),
    }
    match select_geo_result("Atlantis", "", "GR", &Vec::new()) {
        Err(e) => assert_eq!(e.message(), "No location results found for Atlantis, GR"),
        Ok(_) => panic!("expected no results"),
    }
}

#[test]
fn invalid_format_message() {
    assert_eq!(
        LocationError::InvalidFormat.message(),
        "Invalid location format. Use 'City, CountryCode' or 'City, State, CountryCode'."
    );
}

#[test]
fn cache_lasts_four_hours() {
    let cached = LocationData {
        city: "London".to_string(),
        country_code: "GB".to_string(),
        location: "London, GB".to_string(),
        created_at: 1000,
        state: String::new(),
    };
    assert!(cached.cache_answers("london, gb", "london, gb", 1000));
    assert!(cached.cache_answers("London, GB", "London, GB", 1000 + 14399));
    assert!(!cached.cache_answers("London, GB", "London, GB", 1000 + 14400));
    assert!(!cached.cache_answers("Paris, FR", "London, GB", 1000));
    assert!(!cached.cache_answers("london, gb", "London, GB", 1000));
    // A record from an IP lookup is reused for the empty setting.
    assert!(cached.cache_answers("", "", 2000));
    // So is one whose label carries a state the request did not give.
    let with_state = LocationData {
        city: "Boston".to_string(),
        country_code: "US".to_string(),
        location: "Boston, Massachusetts, US".to_string(),
        created_at: 1000,
        state: "Massachusetts".to_string(),
    };
    assert!(with_state.cache_answers("Boston, US", "Boston, US", 1500));
    let never = LocationData { created_at: 0, ..cached };
    assert!(!never.cache_answers("London, GB", "London, GB", 10));
}

#[test]
fn normalizing_twice_is_normalizing_once() {
    for loc in [
        "new york, us",
        "  los   angeles , us ",
        "portland, oregon state, us",
        "boston, ma, us",
        "albany, ny, us",
        "charleston , wv , us",
    ] {
        let once = LocationData::normalize_location_string(loc);
        let twice = LocationData::normalize_location_string(&once);
        assert_eq!(once, twice);
    }
    assert_eq!(LocationData::normalize_location_string("  los   angeles , us "), "Los Angeles, US");
    assert_eq!(
        LocationData::normalize_location_string("charleston , wv , us"),
        "Charleston, West Virginia, US"
    );
    // The District of Columbia's full name title-cases differently.
    let dc = LocationData::normalize_location_string("washington, dc, us");
    assert_eq!(dc, "Washington, District of Columbia, US");
    assert_eq!(LocationData::normalize_location_string(&dc), "Washington, District Of Columbia, US");
    assert_eq!(
        LocationData::normalize_location_string("portland, oregon state, us"),
        "Portland, Oregon State, US"
    );
}
