use delivery::availability::{
    find_available_shipping_for_user, find_available_shipping_for_user_v2,
    get_available_package_for_user, get_available_package_for_user_by_shipping_id_v2,
    get_available_packages,
};
use delivery::countries::{CountryDirectory, NewCountry};
use delivery::errors::Error;
use delivery::models::{Catalog, Company, CompanyPackage, Package, Price, Products, RateEntry, Restriction};
use delivery::rates::{resolve_tier, Tier};
use delivery::resolver::{check_country, check_shipment, get_delivery_price, is_alpha3, price_lane};

fn s(text: &str) -> String {
    text.to_string()
}

fn codes(list: &[&str]) -> Vec<String> {
    list.iter().map(|c| c.to_string()).collect()
}

fn land(label: &str, alpha2: &str, alpha3: &str, numeric: u32) -> NewCountry {
    NewCountry {
        label: s(label),
        parent_label: Some(s("root")),
        level: 1,
        alpha2: s(alpha2),
        alpha3: s(alpha3),
        numeric,
    }
}

fn world() -> CountryDirectory {
    let mut directory = CountryDirectory::new();
    directory
        .create(NewCountry { label: s("root"), parent_label: None, level: 0, alpha2: s(""), alpha3: s(""), numeric: 0 })
        .unwrap();
    directory.create(land("usa", "US", "USA", 840)).unwrap();
    directory.create(land("can", "CA", "CAN", 124)).unwrap();
    directory.create(land("mex", "MX", "MEX", 484)).unwrap();
    directory.create(land("fra", "FR", "FRA", 250)).unwrap();
    directory.create(land("rus", "RU", "RUS", 643)).unwrap();
    directory
}

fn amount(price: Result<Price, Error>) -> Result<u64, Error> {
    price.map(|p| p.amount)
}

fn money(price: &Option<Price>) -> Option<(u64, &str)> {
    price.as_ref().map(|p| (p.amount, p.currency.as_str()))
}

fn tier(weight: u32, volume: u32, price: u64) -> Tier {
    Tier { weight, volume, price }
}

fn binding(id: i32, base_product_id: i32, company_package_id: i32, price: Option<u64>) -> Products {
    Products { id, base_product_id, store_id: 7, company_package_id, price }
}

/// Company 1 ships from USA and offers package 1 as company package 1,
/// restricted to CAN and MEX with ceilings (size 100, weight 50).
/// Company 2 ships from RUS and USA and offers package 2 as company
/// packages 2 and 3, the second of them unrestricted.
fn catalog() -> Catalog {
    Catalog {
        companies: vec![
            Company { id: 1, name: s("UPS"), label: s("ups"), logo: s(""), currency: s("USD"), deliveries_from: codes(&["USA"]) },
            Company { id: 2, name: s("Pochta"), label: s("pochta"), logo: s(""), currency: s("RUB"), deliveries_from: codes(&["RUS", "USA"]) },
        ],
        packages: vec![
            Package { id: 1, name: s("Express"), max_size: 500, max_weight: 500, deliveries_to: codes(&["CAN", "MEX", "FRA"]) },
            Package { id: 2, name: s("Ground"), max_size: 60, max_weight: 20, deliveries_to: codes(&["USA"]) },
        ],
        companies_packages: vec![
            CompanyPackage { id: 3, company_id: 2, package_id: 2, name: s("Pochta-Ground"), currency: s("RUB") },
            CompanyPackage { id: 1, company_id: 1, package_id: 1, name: s("UPS-Express"), currency: s("USD") },
            CompanyPackage { id: 2, company_id: 2, package_id: 2, name: s("Pochta-Ground"), currency: s("RUB") },
        ],
        restrictions: vec![
            Restriction { company_package_id: 1, deliveries_to: Some(codes(&["CAN", "MEX"])), max_size: Some(100), max_weight: Some(50) },
            Restriction { company_package_id: 2, deliveries_to: Some(codes(&["USA", "CAN"])), max_size: None, max_weight: None },
        ],
        rates: vec![
            RateEntry { company_package_id: 1, from: s("USA"), tiers: vec![tier(10, 20, 100), tier(30, 40, 250), tier(50, 100, 400)] },
            RateEntry { company_package_id: 2, from: s("RUS"), tiers: vec![tier(20, 60, 90)] },
        ],
        products: vec![
            binding(11, 100, 1, Some(5)),
            binding(12, 100, 2, None),
            binding(13, 200, 2, Some(8)),
            binding(14, 200, 2, Some(9)),
            binding(15, 300, 3, None),
        ],
    }
}

#[test]
fn tier_is_the_first_that_covers_both_dimensions() {
    let tiers = vec![tier(10, 20, 100), tier(30, 40, 250), tier(50, 100, 400)];
    assert_eq!(resolve_tier(&tiers, 10, 20), Ok(tier(10, 20, 100)));
    assert_eq!(resolve_tier(&tiers, 1, 1), Ok(tier(10, 20, 100)));
    assert_eq!(resolve_tier(&tiers, 11, 20), Ok(tier(30, 40, 250)));
    assert_eq!(resolve_tier(&tiers, 10, 21), Ok(tier(30, 40, 250)));
    assert_eq!(resolve_tier(&tiers, 5, 41), Ok(tier(50, 100, 400)));
    assert_eq!(resolve_tier(&tiers, 50, 100), Ok(tier(50, 100, 400)));
}

#[test]
fn parcel_exceeding_every_tier_has_no_applicable_rate() {
    let tiers = vec![tier(10, 20, 100), tier(30, 40, 250), tier(50, 100, 400)];
    assert_eq!(resolve_tier(&tiers, 51, 1), Err(Error::NoApplicableRate));
    assert_eq!(resolve_tier(&tiers, 1, 101), Err(Error::NoApplicableRate));
    assert_eq!(resolve_tier(&Vec::new(), 1, 1), Err(Error::NoApplicableRate));
}

#[test]
fn delivery_price_comes_from_the_least_covering_tier() {
    let (directory, catalog) = (world(), catalog());
    assert_eq!(amount(get_delivery_price(&directory, &catalog, 1, &s("USA"), &s("CAN"), 40, 30)), Ok(250));
    assert_eq!(amount(get_delivery_price(&directory, &catalog, 1, &s("USA"), &s("MEX"), 20, 10)), Ok(100));
    assert_eq!(amount(get_delivery_price(&directory, &catalog, 1, &s("USA"), &s("MEX"), 41, 30)), Ok(400));
}

#[test]
fn delivery_price_is_in_the_currency_of_the_company_package() {
    let (directory, catalog) = (world(), catalog());
    let usd = get_delivery_price(&directory, &catalog, 1, &s("USA"), &s("CAN"), 40, 30).unwrap();
    assert_eq!((usd.amount, usd.currency.as_str()), (250, "USD"));
    let rub = get_delivery_price(&directory, &catalog, 2, &s("RUS"), &s("USA"), 60, 20).unwrap();
    assert_eq!((rub.amount, rub.currency.as_str()), (90, "RUB"));
}

#[test]
fn delivery_price_fails_with_no_applicable_rate_beyond_the_last_tier() {
    let (directory, catalog) = (world(), catalog());
    assert_eq!(amount(get_delivery_price(&directory, &catalog, 1, &s("USA"), &s("CAN"), 101, 30)), Err(Error::NoApplicableRate));
    assert_eq!(amount(get_delivery_price(&directory, &catalog, 1, &s("USA"), &s("CAN"), 40, 51)), Err(Error::NoApplicableRate));
}

#[test]
fn cp1_is_discovered_from_usa_but_not_priced_to_fra() {
    let (directory, catalog) = (world(), catalog());
    let found = get_available_packages(&directory, &catalog, &s("USA"), 40, 30).unwrap();
    assert!(found.iter().any(|cp| cp.id == 1));
    assert_eq!(amount(get_delivery_price(&directory, &catalog, 1, &s("USA"), &s("FRA"), 40, 30)), Err(Error::NotFound));
}

#[test]
fn delivery_price_reports_what_is_missing() {
    let (directory, catalog) = (world(), catalog());
    assert_eq!(amount(get_delivery_price(&directory, &catalog, 9, &s("USA"), &s("CAN"), 40, 30)), Err(Error::NotFound));
    assert_eq!(amount(get_delivery_price(&directory, &catalog, 1, &s("RUS"), &s("CAN"), 40, 30)), Err(Error::NotFound));
    assert_eq!(amount(get_delivery_price(&directory, &catalog, 1, &s("USA"), &s("DEU"), 40, 30)), Err(Error::NotFound));
    assert_eq!(amount(get_delivery_price(&directory, &catalog, 1, &s("USA"), &s("CAN"), 0, 30)), Err(Error::Validate));
    assert_eq!(amount(get_delivery_price(&directory, &catalog, 1, &s("USA"), &s("CAN"), 40, 0)), Err(Error::Validate));
    assert_eq!(amount(get_delivery_price(&directory, &catalog, 1, &s("US"), &s("CAN"), 40, 30)), Err(Error::Validate));
    assert_eq!(amount(get_delivery_price(&directory, &catalog, 1, &s("USA"), &s("C4N"), 40, 30)), Err(Error::Validate));
    assert_eq!(amount(price_lane(&catalog, 3, &s("RUS"), &s("FRA"), 1, 1)), Err(Error::NotFound));
}

#[test]
fn country_codes_are_checked_for_shape_then_presence() {
    let directory = world();
    assert!(is_alpha3(&s("USA")));
    assert!(is_alpha3(&s("usa")));
    assert!(!is_alpha3(&s("US")));
    assert!(!is_alpha3(&s("USAA")));
    assert!(!is_alpha3(&s("U-A")));
    assert!(!is_alpha3(&s("")));
    assert_eq!(delivery::resolver::check_code_shape(&s("rus")), Ok(()));
    assert_eq!(delivery::resolver::check_code_shape(&s("ru")), Err(Error::Validate));
    assert_eq!(check_country(&directory, &s("USA")), Ok(s("USA")));
    assert_eq!(check_country(&directory, &s("usa")), Ok(s("USA")));
    assert_eq!(check_country(&directory, &s("deu")), Err(Error::NotFound));
    assert_eq!(check_country(&directory, &s("U5A")), Err(Error::Validate));
    assert_eq!(check_shipment(&directory, &s("USA"), &s("CAN"), 1, 1), Ok((s("USA"), s("CAN"))));
    assert_eq!(check_shipment(&directory, &s("usa"), &s("Can"), 1, 1), Ok((s("USA"), s("CAN"))));
    assert_eq!(check_shipment(&directory, &s("USA"), &s("DEU"), 1, 1), Err(Error::NotFound));
    assert_eq!(check_shipment(&directory, &s("USA"), &s("CAN"), 0, 1), Err(Error::Validate));
}

#[test]
fn discovery_lists_every_fitting_offering_ascending_by_id() {
    let (directory, catalog) = (world(), catalog());
    let ids = |size: u32, weight: u32, origin: &str| -> Vec<i32> {
        get_available_packages(&directory, &catalog, &s(origin), size, weight).unwrap().iter().map(|cp| cp.id).collect()
    };
    assert_eq!(ids(40, 20, "USA"), vec![1, 2, 3]);
    assert_eq!(ids(40, 30, "USA"), vec![1]);
    assert_eq!(ids(100, 50, "USA"), vec![1]);
    assert_eq!(ids(101, 50, "USA"), Vec::<i32>::new());
    assert_eq!(ids(60, 20, "RUS"), vec![2, 3]);
    assert_eq!(ids(1, 1, "CAN"), Vec::<i32>::new());
    assert!(matches!(get_available_packages(&directory, &catalog, &s("USA"), 0, 1), Err(Error::Validate)));
    assert!(matches!(get_available_packages(&directory, &catalog, &s("USA"), 1, 0), Err(Error::Validate)));
    assert!(matches!(get_available_packages(&directory, &catalog, &s("U"), 1, 1), Err(Error::Validate)));
    assert!(matches!(get_available_packages(&directory, &catalog, &s("DEU"), 1, 1), Err(Error::NotFound)));
}

#[test]
fn discovery_ignores_the_destination_restriction() {
    let (directory, mut catalog) = (world(), catalog());
    catalog.restrictions[0].deliveries_to = Some(Vec::new());
    let found = get_available_packages(&directory, &catalog, &s("USA"), 40, 30).unwrap();
    assert_eq!(found.iter().map(|cp| cp.id).collect::<Vec<i32>>(), vec![1]);
    assert_eq!(found[0].name, "UPS-Express");
}

#[test]
fn v2_with_one_eligible_binding_answers_it_with_the_delivery_price() {
    let (directory, catalog) = (world(), catalog());
    let answer = find_available_shipping_for_user_v2(&directory, &catalog, 100, &s("USA"), &s("MEX"), 40, 30).unwrap();
    assert_eq!(answer.shipping_id, 11);
    assert_eq!(answer.base_product_id, 100);
    assert_eq!(answer.company_package_id, 1);
    assert_eq!(answer.deliveries_to, "MEX");
    let price = get_delivery_price(&directory, &catalog, 1, &s("USA"), &s("MEX"), 40, 30).unwrap();
    assert_eq!(money(&answer.price), Some((price.amount, price.currency.as_str())));
    assert_eq!(money(&answer.price), Some((250, "USD")));
}

#[test]
fn v2_with_two_eligible_bindings_is_ambiguous() {
    let (directory, catalog) = (world(), catalog());
    let answer = find_available_shipping_for_user_v2(&directory, &catalog, 200, &s("RUS"), &s("CAN"), 60, 20);
    assert!(matches!(answer, Err(Error::AmbiguousMatch)));
}

#[test]
fn v2_without_an_eligible_binding_is_not_found() {
    let (directory, catalog) = (world(), catalog());
    let to_fra = find_available_shipping_for_user_v2(&directory, &catalog, 100, &s("USA"), &s("FRA"), 40, 30);
    assert!(matches!(to_fra, Err(Error::NotFound)));
    let too_heavy = find_available_shipping_for_user_v2(&directory, &catalog, 100, &s("USA"), &s("MEX"), 40, 51);
    assert!(matches!(too_heavy, Err(Error::NotFound)));
    let wrong_origin = find_available_shipping_for_user_v2(&directory, &catalog, 100, &s("MEX"), &s("CAN"), 40, 30);
    assert!(matches!(wrong_origin, Err(Error::NotFound)));
    let unknown_product = find_available_shipping_for_user_v2(&directory, &catalog, 999, &s("USA"), &s("MEX"), 40, 30);
    assert!(matches!(unknown_product, Err(Error::NotFound)));
    let no_dimension = find_available_shipping_for_user_v2(&directory, &catalog, 100, &s("USA"), &s("MEX"), 0, 30);
    assert!(matches!(no_dimension, Err(Error::Validate)));
}

#[test]
fn v2_passes_on_the_error_of_pricing() {
    let (directory, catalog) = (world(), catalog());
    let no_rate_entry = find_available_shipping_for_user_v2(&directory, &catalog, 300, &s("RUS"), &s("FRA"), 60, 20);
    assert!(matches!(no_rate_entry, Err(Error::NotFound)));
    let mut small = catalog;
    small.rates[0].tiers = vec![tier(10, 20, 100)];
    let beyond = find_available_shipping_for_user_v2(&directory, &small, 100, &s("USA"), &s("MEX"), 40, 30);
    assert!(matches!(beyond, Err(Error::NoApplicableRate)));
}

#[test]
fn v2_by_shipping_id_prices_the_one_binding() {
    let (directory, catalog) = (world(), catalog());
    let answer = get_available_package_for_user_by_shipping_id_v2(&directory, &catalog, 13, &s("RUS"), &s("CAN"), 60, 20).unwrap();
    assert_eq!(answer.shipping_id, 13);
    assert_eq!(answer.company_package_id, 2);
    assert_eq!(money(&answer.price), Some((90, "RUB")));
    let other = get_available_package_for_user_by_shipping_id_v2(&directory, &catalog, 14, &s("RUS"), &s("CAN"), 60, 20).unwrap();
    assert_eq!(other.shipping_id, 14);
    let absent = get_available_package_for_user_by_shipping_id_v2(&directory, &catalog, 99, &s("RUS"), &s("CAN"), 60, 20);
    assert!(matches!(absent, Err(Error::NotFound)));
}

#[test]
fn v1_answers_the_first_admitted_binding_in_stored_order() {
    let (directory, mut catalog) = (world(), catalog());
    let first = find_available_shipping_for_user(&directory, &catalog, 100, &s("CAN")).unwrap();
    assert_eq!((first.shipping_id, first.company_package_id, money(&first.price)), (11, 1, Some((5, "USD"))));
    assert_eq!(first.deliveries_to, "CAN");
    catalog.products.swap(0, 1);
    let other = find_available_shipping_for_user(&directory, &catalog, 100, &s("CAN")).unwrap();
    assert_eq!((other.shipping_id, other.company_package_id, money(&other.price)), (12, 2, None));
    let only_second = find_available_shipping_for_user(&directory, &catalog, 100, &s("MEX")).unwrap();
    assert_eq!(only_second.shipping_id, 11);
    let unrestricted = find_available_shipping_for_user(&directory, &catalog, 300, &s("FRA")).unwrap();
    assert_eq!(unrestricted.shipping_id, 15);
}

#[test]
fn v1_fails_where_no_binding_admits_the_country() {
    let (directory, catalog) = (world(), catalog());
    assert!(matches!(find_available_shipping_for_user(&directory, &catalog, 100, &s("FRA")), Err(Error::NotFound)));
    assert!(matches!(find_available_shipping_for_user(&directory, &catalog, 999, &s("CAN")), Err(Error::NotFound)));
    assert!(matches!(find_available_shipping_for_user(&directory, &catalog, 100, &s("DEU")), Err(Error::NotFound)));
    assert!(matches!(find_available_shipping_for_user(&directory, &catalog, 100, &s("Canada")), Err(Error::Validate)));
}

#[test]
fn companion_lookup_answers_the_first_row_of_the_pair() {
    let catalog = catalog();
    assert_eq!(get_available_package_for_user(&catalog, 200, 2), Ok(binding(13, 200, 2, Some(8))));
    assert_eq!(get_available_package_for_user(&catalog, 100, 2), Ok(binding(12, 100, 2, None)));
    assert_eq!(get_available_package_for_user(&catalog, 100, 3), Err(Error::NotFound));
}

#[test]
fn codes_given_in_lower_case_are_matched_as_stored() {
    let (directory, catalog) = (world(), catalog());
    assert_eq!(amount(get_delivery_price(&directory, &catalog, 1, &s("usa"), &s("can"), 40, 30)), Ok(250));
    assert_eq!(amount(get_delivery_price(&directory, &catalog, 1, &s("usa"), &s("fra"), 40, 30)), Err(Error::NotFound));
    let answer = find_available_shipping_for_user_v2(&directory, &catalog, 100, &s("usa"), &s("mex"), 40, 30).unwrap();
    assert_eq!((answer.shipping_id, answer.deliveries_to.as_str()), (11, "MEX"));
    let first = find_available_shipping_for_user(&directory, &catalog, 100, &s("can")).unwrap();
    assert_eq!((first.shipping_id, first.deliveries_to.as_str()), (11, "CAN"));
    let found = get_available_packages(&directory, &catalog, &s("rus"), 60, 20).unwrap();
    assert_eq!(found.iter().map(|cp| cp.id).collect::<Vec<i32>>(), vec![2, 3]);
}

#[test]
fn a_lane_without_tiers_has_no_rates() {
    let (directory, mut catalog) = (world(), catalog());
    catalog.rates[0].tiers = Vec::new();
    assert_eq!(amount(get_delivery_price(&directory, &catalog, 1, &s("USA"), &s("CAN"), 40, 30)), Err(Error::NotFound));
    catalog.rates.remove(0);
    assert_eq!(amount(get_delivery_price(&directory, &catalog, 1, &s("USA"), &s("CAN"), 40, 30)), Err(Error::NotFound));
}

#[test]
fn codes_in_the_catalog_are_matched_in_any_case() {
    let (directory, mut catalog) = (world(), catalog());
    catalog.restrictions[0].deliveries_to = Some(codes(&["can", "Mex"]));
    catalog.companies[0].deliveries_from = codes(&["usa"]);
    catalog.rates[0].from = s("Usa");
    assert_eq!(amount(get_delivery_price(&directory, &catalog, 1, &s("USA"), &s("CAN"), 40, 30)), Ok(250));
    assert_eq!(amount(get_delivery_price(&directory, &catalog, 1, &s("usa"), &s("FRA"), 40, 30)), Err(Error::NotFound));
    let answer = find_available_shipping_for_user_v2(&directory, &catalog, 100, &s("USA"), &s("MEX"), 40, 30).unwrap();
    assert_eq!(answer.shipping_id, 11);
    let found = get_available_packages(&directory, &catalog, &s("USA"), 40, 30).unwrap();
    assert_eq!(found.iter().map(|cp| cp.id).collect::<Vec<i32>>(), vec![1]);
}

#[test]
fn discovery_in_a_catalog_with_distinct_ids_lists_no_id_twice() {
    let (directory, catalog) = (world(), catalog());
    let found = get_available_packages(&directory, &catalog, &s("USA"), 40, 20).unwrap();
    assert!(found.windows(2).all(|pair| pair[0].id < pair[1].id));
    assert_eq!(found.len(), 3);
}
