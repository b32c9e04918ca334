use suntime::location::{
    check_city, check_countries, check_country, check_state, choose_location, city_suggestions, match_to_city,
    CityNames, LocationSource,
};

fn row(city: &str, country: &str, iso2: &str, iso3: &str, admin: &str) -> CityNames {
    CityNames {
        city: city.to_string(),
        city_ascii: city.to_string(),
        country: country.to_string(),
        iso2: iso2.to_string(),
        iso3: iso3.to_string(),
        admin_name: admin.to_string(),
    }
}

fn rows() -> Vec<CityNames> {
    vec![
        row("Paris", "France", "FR", "FRA", "Île-de-France"),
        row("Paris", "United States", "US", "USA", "Texas"),
        row("Berlin", "Germany", "DE", "DEU", ""),
    ]
}

#[test]
fn country_names_match_in_lower_case() {
    assert!(check_country("france", "France"));
    assert!(check_country("fr", "FR"));
    assert!(check_country("fra", "FRA"));
    assert!(!check_country("france", "Germany"));
    assert!(!check_country("France", "France"));
    assert!(check_country("", ""));
}

#[test]
fn countries_by_name_or_code() {
    let r = &rows()[1];
    assert!(check_countries("united states", r));
    assert!(check_countries("us", r));
    assert!(check_countries("usa", r));
    assert!(!check_countries("texas", r));
}

#[test]
fn states_alone_or_with_country() {
    let r = &rows()[1];
    assert!(check_state("texas", "Texas", r));
    assert!(check_state("texas  ", "Texas", r));
    assert!(check_state("texas, us", "Texas", r));
    assert!(check_state("texas usa", "Texas", r));
    assert!(!check_state("texas, fr", "Texas", r));
    assert!(!check_state("texasx", "Texas", r));
    assert!(!check_state("tex", "Texas", r));
}

#[test]
fn cities_with_country_or_state() {
    let rs = rows();
    assert!(check_city("paris", "Paris", &rs[0]));
    assert!(check_city("paris, fr", "Paris", &rs[0]));
    assert!(check_city("paris,,  fr ", "Paris", &rs[0]));
    assert!(!check_city("paris, fr", "Paris", &rs[1]));
    assert!(check_city("paris, texas", "Paris", &rs[1]));
    assert!(check_city("paris texas, usa", "Paris", &rs[1]));
    assert!(check_city("paris, île-de-france", "Paris", &rs[0]));
    assert!(!check_city("parisx", "Paris", &rs[0]));
    assert!(!check_city("berlin, ", "Paris", &rs[2]));
    assert!(check_city("berlin, ", "Berlin", &rs[2]));
    assert!(!check_city("berlin,x", "Berlin", &rs[2]));
}

#[test]
fn matching_rows_in_order() {
    let rs = rows();
    assert_eq!(match_to_city("paris", &rs), vec![0, 1]);
    assert_eq!(match_to_city("paris, us", &rs), vec![1]);
    assert_eq!(match_to_city("berlin", &rs), vec![2]);
    assert_eq!(match_to_city("rome", &rs), Vec::<usize>::new());
}

#[test]
fn suggestions_show_state_for_shared_codes() {
    let mut rs = rows();
    rs.push(row("Paris", "United States", "US", "USA", "Kentucky"));
    let found = match_to_city("paris", &rs);
    assert_eq!(found, vec![0, 1, 3]);
    assert_eq!(
        city_suggestions(&rs, &found),
        vec![
            "  * Paris, FR".to_string(),
            "  * Paris, Texas, US".to_string(),
            "  * Paris, Kentucky, US".to_string(),
        ]
    );
    assert_eq!(city_suggestions(&rs, &[]), Vec::<String>::new());
}

#[test]
fn location_source_by_what_is_given() {
    assert_eq!(choose_location(false, false, false), LocationSource::Missing);
    assert_eq!(choose_location(true, false, false), LocationSource::HalfCoordinates);
    assert_eq!(choose_location(false, true, false), LocationSource::HalfCoordinates);
    assert_eq!(choose_location(false, false, true), LocationSource::City);
    assert_eq!(choose_location(true, false, true), LocationSource::City);
    assert_eq!(choose_location(false, true, true), LocationSource::City);
    assert_eq!(choose_location(true, true, false), LocationSource::Coordinates);
    assert_eq!(choose_location(true, true, true), LocationSource::Ambiguous);
}
