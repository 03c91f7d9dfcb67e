use outside::bookmarks::{settings_location_for, LocationList, LocationManager};
use outside::location::LocationData;

fn create_test_location_list() -> LocationList {
    LocationList {
        locations: vec![
            "Automatic".to_string(),
            "London, GB".to_string(),
            "New York, US".to_string(),
            "Paris, FR".to_string(),
        ],
    }
}

#[test]
fn test_add_location() {
    let mut location_list = LocationList::new();

    assert!(location_list.add_location("Tokyo, JP".to_string()));
    assert_eq!(location_list.locations.len(), 1);
    assert_eq!(location_list.locations[0], "Tokyo, JP");

    // Adding a duplicate changes nothing
    assert!(!location_list.add_location("Tokyo, JP".to_string()));
    assert_eq!(location_list.locations.len(), 1);

    assert!(location_list.add_location("Sydney, AU".to_string()));
    assert_eq!(location_list.locations.len(), 2);
}

#[test]
fn test_remove_location_by_name() {
    let mut location_list = create_test_location_list();

    assert!(location_list.remove_location_by_name("London, GB"));
    assert_eq!(location_list.locations.len(), 3);
    assert!(!location_list.locations.contains(&"London, GB".to_string()));

    let initial_len = location_list.locations.len();
    assert!(!location_list.remove_location_by_name("Tokyo, JP"));
    assert_eq!(location_list.locations.len(), initial_len);
}

#[test]
fn test_get_sorted_locations() {
    let location_list = LocationList {
        locations: vec![
            "Zurich, CH".to_string(),
            "Automatic".to_string(),
            "Berlin, DE".to_string(),
            "Amsterdam, NL".to_string(),
        ],
    };

    let (sorted_locations, other_locations) = location_list.get_sorted_locations();

    assert_eq!(sorted_locations[0], "Automatic");

    assert_eq!(other_locations[0], "Amsterdam, NL");
    assert_eq!(other_locations[1], "Berlin, DE");
    assert_eq!(other_locations[2], "Zurich, CH");

    assert_eq!(sorted_locations.len(), 4);
    assert_eq!(sorted_locations[0], "Automatic");
    assert_eq!(sorted_locations[1], "Amsterdam, NL");
    assert_eq!(sorted_locations[2], "Berlin, DE");
    assert_eq!(sorted_locations[3], "Zurich, CH");
}

#[test]
fn test_get_sorted_locations_with_index() {
    let location_list = LocationList {
        locations: vec!["Zurich, CH".to_string(), "Automatic".to_string(), "Berlin, DE".to_string()],
    };

    let (sorted_locations, index) = location_list.get_sorted_locations_with_index("Berlin, DE");
    assert_eq!(sorted_locations.len(), 3);
    assert_eq!(index, Some(1));

    let (_, index) = location_list.get_sorted_locations_with_index("Automatic");
    assert_eq!(index, Some(0));

    let (_, index) = location_list.get_sorted_locations_with_index("Tokyo, JP");
    assert_eq!(index, None);
}

#[test]
fn test_location_manager_new() {
    let test_list = LocationList { locations: vec!["Test Location".to_string()] };
    let manager = LocationManager::new(test_list);

    let list = manager.get_location_list();
    assert_eq!(list.locations.len(), 1);
    assert_eq!(list.locations[0], "Test Location");
}

#[test]
fn test_location_manager_get_current_location_string() {
    let manager = LocationManager::new(LocationList::new());

    assert_eq!(manager.get_current_location_string(""), "Automatic");

    assert_eq!(
        manager.get_current_location_string("London, GB"),
        LocationData::normalize_location_string("London, GB")
    );
}

#[test]
fn test_location_manager_add_remove_operations() {
    let mut manager =
        LocationManager::new(LocationList { locations: vec!["Initial Location, IL".to_string()] });

    manager.add_location("New Location, NL".to_string());
    let list = manager.get_location_list();
    assert_eq!(list.locations.len(), 2);
    assert!(list.locations.contains(&"New Location, NL".to_string()));
    assert!(list.locations.contains(&"Initial Location, IL".to_string()));

    manager.add_location("New Location, NL".to_string());
    assert_eq!(manager.get_location_list().locations.len(), 2);

    manager.remove_location_by_name("Initial Location, IL");
    let list = manager.get_location_list();
    assert_eq!(list.locations.len(), 1);
    assert!(!list.locations.contains(&"Initial Location, IL".to_string()));
    assert!(list.locations.contains(&"New Location, NL".to_string()));

    let initial_len = manager.get_location_list().locations.len();
    manager.remove_location_by_name("Non-existent Location");
    assert_eq!(manager.get_location_list().locations.len(), initial_len);
}

#[test]
fn sorting_compares_city_before_country_and_keeps_ties() {
    let list = LocationList {
        locations: vec![
            "Paris, US".to_string(),
            "Automatic".to_string(),
            " Paris , FR".to_string(),
            "Paris, FR".to_string(),
            "Automatic".to_string(),
            "Berlin, DE".to_string(),
        ],
    };
    let (all, others) = list.get_sorted_locations();
    assert_eq!(
        all,
        vec!["Automatic", "Automatic", "Berlin, DE", " Paris , FR", "Paris, FR", "Paris, US"]
    );
    assert_eq!(others, vec!["Berlin, DE", " Paris , FR", "Paris, FR", "Paris, US"]);
}

#[test]
fn sorting_without_commas_is_by_whole_string() {
    let list = LocationList {
        locations: vec!["beta".to_string(), "Alpha".to_string(), "alpha".to_string()],
    };
    let (all, _) = list.get_sorted_locations();
    assert_eq!(all, vec!["Alpha", "alpha", "beta"]);
}

#[test]
fn removing_takes_only_the_first_match() {
    let mut list = LocationList {
        locations: vec!["A, B".to_string(), "C, D".to_string(), "A, B".to_string()],
    };
    assert!(list.remove_location_by_name("A, B"));
    assert_eq!(list.locations, vec!["C, D", "A, B"]);
}

#[test]
fn ensuring_a_location_adds_it_once() {
    let mut manager = LocationManager::new(LocationList::new());
    assert!(manager.ensure_location_in_list("Oslo, NO".to_string()));
    assert!(!manager.ensure_location_in_list("Oslo, NO".to_string()));
    assert_eq!(manager.get_location_list().locations, vec!["Oslo, NO"]);
}

#[test]
fn bookmark_settings_location() {
    assert_eq!(settings_location_for("Automatic").ok(), Some(String::new()));
    assert_eq!(settings_location_for("London, GB").ok(), Some("London, GB".to_string()));
    assert_eq!(settings_location_for("Boston, MA, US").ok(), Some("Boston, MA, US".to_string()));
    assert_eq!(
        settings_location_for("Boston, Massachusetts, US").ok(),
        Some("Boston, Massachusetts, US".to_string())
    );
    assert!(settings_location_for("a, b, c, d").is_err());
    assert!(settings_location_for("Nowhere").is_err());
}

#[test]
fn both_listings_agree_on_mixed_shapes() {
    let mut list = LocationList::new();
    for loc in ["Paris, FR", "Nowhere", "Automatic", "Berlin, DE", "Atlantis", "Boston, MA, US"] {
        list.add_location(loc.to_string());
    }
    let (all, others) = list.get_sorted_locations();
    let (with_index, index) = list.get_sorted_locations_with_index("Nowhere");
    assert_eq!(all, with_index);
    assert_eq!(all[0], "Automatic");
    assert_eq!(&all[1..], &others[..]);
    assert_eq!(all[index.unwrap()], "Nowhere");
}
