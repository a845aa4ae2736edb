use delivery::controller::{caller_id, dispatch, read_discovery, read_lane, Method, Operation};
use delivery::countries::CountrySearch;
use delivery::errors::Error;
use delivery::naming::{get_company_package_name, get_pg_str_json_array};
use delivery::query::{number_param, text_param};
use delivery::routes::{create_route_parser, role_by_id, Route};

fn route(path: &str) -> Option<Route> {
    create_route_parser().test(path)
}

#[test]
fn company_package_name_joins_with_a_hyphen() {
    assert_eq!(get_company_package_name("UPS", "Express"), "UPS-Express");
    assert_eq!(get_company_package_name("", ""), "-");
    assert_eq!(get_company_package_name("a-b", "c"), "a-b-c");
}

#[test]
fn country_codes_as_sql_array() {
    assert_eq!(get_pg_str_json_array(Vec::new()), "array[]");
    assert_eq!(get_pg_str_json_array(vec!["RUS".to_string()]), "array['RUS']");
    assert_eq!(
        get_pg_str_json_array(vec!["RUS".to_string(), "USA".to_string(), "".to_string()]),
        "array['RUS','USA','']"
    );
}

#[test]
fn fixed_paths_are_routed() {
    assert!(matches!(route("/roles"), Some(Route::Roles)));
    assert!(matches!(route("/restrictions"), Some(Route::Restrictions)));
    assert!(matches!(route("/delivery_to"), Some(Route::DeliveryTo)));
    assert!(matches!(route("/delivery_to/search/filters/company"), Some(Route::DeliveryToFiltersCompany)));
    assert!(matches!(route("/delivery_to/search/filters/country"), Some(Route::DeliveryToFiltersCountry)));
    assert!(matches!(route("/companies"), Some(Route::Companies)));
    assert!(matches!(route("/companies_packages"), Some(Route::CompaniesPackages)));
    assert!(matches!(route("/available_packages"), Some(Route::AvailablePackages)));
    assert!(matches!(route("/countries"), Some(Route::Countries)));
    assert!(matches!(route("/countries/flatten"), Some(Route::CountriesFlatten)));
    assert!(matches!(route("/packages"), Some(Route::Packages)));
    assert!(matches!(route("/users/addresses"), Some(Route::UsersAddresses)));
}

#[test]
fn paths_with_ids_are_routed() {
    assert!(matches!(route("/roles/by-user-id/12"), Some(Route::RolesByUserId { user_id: 12 })));
    assert!(matches!(route("/roles/by-user-id/2147483647"), Some(Route::RolesByUserId { user_id: 2147483647 })));
    assert!(matches!(route("/roles/by-user-id/007"), Some(Route::RolesByUserId { user_id: 7 })));
    assert!(matches!(route("/products/5"), Some(Route::ProductsById { base_product_id: 5 })));
    assert!(matches!(
        route("/products/5/company_package/6"),
        Some(Route::ProductsByIdAndCompanyPackageId { base_product_id: 5, company_package_id: 6 })
    ));
    assert!(matches!(route("/companies/3"), Some(Route::CompanyById { company_id: 3 })));
    assert!(matches!(route("/companies/3/packages"), Some(Route::PackagesByCompanyId { company_id: 3 })));
    assert!(matches!(
        route("/companies/3/packages/4"),
        Some(Route::CompaniesPackagesByIds { company_id: 3, package_id: 4 })
    ));
    assert!(matches!(route("/companies_packages/8"), Some(Route::CompaniesPackagesById { company_package_id: 8 })));
    assert!(matches!(route("/companies_packages/8/rates"), Some(Route::CompanyPackageRates { company_package_id: 8 })));
    assert!(matches!(
        route("/companies_packages/8/price"),
        Some(Route::CompanyPackageDeliveryPrice { company_package_id: 8 })
    ));
    assert!(matches!(route("/available_packages_for_user/9"), Some(Route::AvailablePackagesForUser { base_product_id: 9 })));
    assert!(matches!(
        route("/v2/available_packages_for_user/9"),
        Some(Route::AvailablePackagesForUserV2 { base_product_id: 9 })
    ));
    assert!(matches!(
        route("/available_packages_for_user/products/9/companies_packages/2"),
        Some(Route::AvailablePackageForUser { base_product_id: 9, company_package_id: 2 })
    ));
    assert!(matches!(
        route("/available_packages_for_user/by_shipping_id/4"),
        Some(Route::AvailablePackageForUserByShippingId { shipping_id: 4 })
    ));
    assert!(matches!(
        route("/v2/available_packages_for_user/by_shipping_id/4"),
        Some(Route::AvailablePackageForUserByShippingIdV2 { shipping_id: 4 })
    ));
    assert!(matches!(route("/packages/2"), Some(Route::PackagesById { package_id: 2 })));
    assert!(matches!(route("/packages/2/companies"), Some(Route::CompaniesByPackageId { package_id: 2 })));
    assert!(matches!(route("/users/6/addresses"), Some(Route::UserAddress { user_id: 6 })));
    assert!(matches!(route("/users/addresses/6"), Some(Route::UserAddressById { user_address_id: 6 })));
}

#[test]
fn country_lookups_are_routed() {
    match route("/countries/alpha2/ru") {
        Some(Route::CountryByAlpha2 { alpha2 }) => assert_eq!(alpha2, "ru"),
        _ => panic!("no route"),
    }
    match route("/countries/alpha3/XEU") {
        Some(Route::CountryByAlpha3 { alpha3 }) => assert_eq!(alpha3, "XEU"),
        _ => panic!("no route"),
    }
    assert!(matches!(route("/countries/numeric/643"), Some(Route::CountryByNumeric { numeric: 643 })));
    assert!(route("/countries/numeric/x").is_none());
    assert!(route("/countries/alpha2/").is_none());
    assert!(route("/countries/alpha4/ru").is_none());
}

#[test]
fn role_ids_are_read_as_uuids() {
    match route("/roles/by-id/a1a2a3a4-b1b2-c1c2-d1d2-d3d4d5d6d7d8") {
        Some(Route::RoleById { id }) => assert_eq!(id, 0xa1a2a3a4b1b2c1c2d1d2d3d4d5d6d7d8),
        _ => panic!("no route"),
    }
    match route("/roles/by-id/A1A2A3A4B1B2C1C2D1D2D3D4D5D6D7D8") {
        Some(Route::RoleById { id }) => assert_eq!(id, 0xa1a2a3a4b1b2c1c2d1d2d3d4d5d6d7d8),
        _ => panic!("no route"),
    }
    assert!(route("/roles/by-id/not-a-uuid").is_none());
    assert!(route("/roles/by-id/{a1a2a3a4-b1b2-c1c2-d1d2-d3d4d5d6d7d8}").is_none());
    assert!(route("/roles/by-id/").is_none());
    assert!(matches!(role_by_id(true, Some(5)), Some(Route::RoleById { id: 5 })));
    assert!(role_by_id(false, Some(5)).is_none());
    assert!(role_by_id(true, None).is_none());
}

#[test]
fn other_paths_have_no_route() {
    for path in [
        "", "/", "roles", "/roles/", "//roles", "/Roles", "/roles/by-user-id/", "/roles/by-user-id/-1",
        "/roles/by-user-id/+1", "/roles/by-user-id/2147483648", "/roles/by-user-id/1a", "/products",
        "/products/x", "/countries/flatten/x", "/companies/1/packages/2/3", "/v2/available_packages_for_user",
        "/a/b/c/d/e/f/g", "/users/addresses/", "/delivery_to/search/filters/other",
    ] {
        assert!(route(path).is_none(), "{}", path);
    }
}

#[test]
fn caller_is_read_from_the_authorization_header() {
    assert_eq!(caller_id(Some("1")), Some(1));
    assert_eq!(caller_id(Some("+12")), Some(12));
    assert_eq!(caller_id(Some("-12")), Some(-12));
    assert_eq!(caller_id(Some("2147483647")), Some(2147483647));
    assert_eq!(caller_id(Some("-2147483648")), Some(-2147483648));
    assert_eq!(caller_id(Some("2147483648")), None);
    assert_eq!(caller_id(Some("-2147483649")), None);
    assert_eq!(caller_id(Some("")), None);
    assert_eq!(caller_id(Some("-")), None);
    assert_eq!(caller_id(Some(" 1")), None);
    assert_eq!(caller_id(Some("1x")), None);
    assert_eq!(caller_id(None), None);
}

#[test]
fn query_parameters_are_found_by_key() {
    let query = "from=RUS&to=USA&volume=10&weight=+20&flag&x=1=2&to=CAN";
    assert_eq!(text_param(query, "from"), Some("RUS".to_string()));
    assert_eq!(text_param(query, "to"), Some("USA".to_string()));
    assert_eq!(text_param(query, "flag"), None);
    assert_eq!(text_param(query, "x"), None);
    assert_eq!(text_param(query, "fro"), None);
    assert_eq!(text_param("a=", "a"), Some("".to_string()));
    assert_eq!(text_param("", "a"), None);
    assert_eq!(number_param(query, "volume"), Some(10));
    assert_eq!(number_param(query, "weight"), Some(20));
    assert_eq!(number_param(query, "from"), None);
    assert_eq!(number_param("n=4294967295", "n"), Some(4294967295));
    assert_eq!(number_param("n=4294967296", "n"), None);
    assert_eq!(number_param("n=-1", "n"), None);
    assert_eq!(number_param("n=+", "n"), None);
    assert_eq!(number_param("n=", "n"), None);
    assert_eq!(read_lane(query, "from", "to"), Some(("RUS".to_string(), "USA".to_string(), 10, 20)));
    assert_eq!(read_lane(query, "delivery_from", "to"), None);
    assert_eq!(read_discovery("country=USA&size=3&weight=4"), Some(("USA".to_string(), 3, 4)));
    assert_eq!(read_discovery("country=USA&size=3"), None);
}

#[test]
fn requests_are_dispatched_by_method_and_route() {
    assert!(matches!(dispatch(Method::Get, route("/countries"), ""), Ok(Operation::GetAllCountries)));
    assert!(matches!(dispatch(Method::Post, route("/countries"), ""), Ok(Operation::CreateCountry)));
    assert!(matches!(dispatch(Method::Get, route("/countries/flatten"), ""), Ok(Operation::GetAllCountriesFlatten)));
    match dispatch(Method::Get, route("/countries/alpha3/rus"), "") {
        Ok(Operation::FindCountry { search: CountrySearch::Alpha3(code) }) => assert_eq!(code, "rus"),
        _ => panic!("not dispatched"),
    }
    assert!(matches!(
        dispatch(Method::Get, route("/countries/numeric/643"), ""),
        Ok(Operation::FindCountry { search: CountrySearch::Numeric(643) })
    ));
    assert!(matches!(dispatch(Method::Get, route("/roles/by-user-id/3"), ""), Ok(Operation::GetRoles { user_id: 3 })));
    assert!(matches!(
        dispatch(Method::Delete, route("/roles/by-user-id/3"), ""),
        Ok(Operation::DeleteRolesByUserId { user_id: 3 })
    ));
    assert!(matches!(dispatch(Method::Post, route("/roles"), ""), Ok(Operation::CreateRole)));
    assert!(matches!(dispatch(Method::Post, route("/products/5"), ""), Ok(Operation::UpsertShipping { base_product_id: 5 })));
    assert!(matches!(dispatch(Method::Get, route("/products/5"), ""), Ok(Operation::GetProducts { base_product_id: 5 })));
    assert!(matches!(dispatch(Method::Delete, route("/products/5"), ""), Ok(Operation::DeleteProducts { base_product_id: 5 })));
    assert!(matches!(
        dispatch(Method::Put, route("/products/5/company_package/6"), ""),
        Ok(Operation::UpdateProducts { base_product_id: 5, company_package_id: 6 })
    ));
    assert!(matches!(
        dispatch(Method::Delete, route("/companies/3/packages/4"), ""),
        Ok(Operation::DeleteCompanyPackage { company_id: 3, package_id: 4 })
    ));
    assert!(matches!(
        dispatch(Method::Get, route("/available_packages_for_user/products/9/companies_packages/2"), ""),
        Ok(Operation::GetAvailablePackageForUser { base_product_id: 9, company_package_id: 2 })
    ));
    assert!(matches!(dispatch(Method::Put, route("/users/addresses/6"), ""), Ok(Operation::UpdateAddress { user_address_id: 6 })));
}

#[test]
fn requests_with_query_parameters_are_dispatched() {
    match dispatch(Method::Get, route("/companies_packages/8/price"), "from=USA&to=CAN&volume=40&weight=30") {
        Ok(Operation::GetDeliveryPrice { company_package_id, delivery_from, delivery_to, volume, weight }) => {
            assert_eq!((company_package_id, volume, weight), (8, 40, 30));
            assert_eq!((delivery_from.as_str(), delivery_to.as_str()), ("USA", "CAN"));
        }
        _ => panic!("not dispatched"),
    }
    match dispatch(Method::Get, route("/companies_packages/8/rates"), "from=USA") {
        Ok(Operation::GetShippingRates { company_package_id: 8, delivery_from }) => assert_eq!(delivery_from, "USA"),
        _ => panic!("not dispatched"),
    }
    match dispatch(Method::Get, route("/available_packages"), "country=USA&size=40&weight=30") {
        Ok(Operation::GetAvailablePackages { country, size: 40, weight: 30 }) => assert_eq!(country, "USA"),
        _ => panic!("not dispatched"),
    }
    match dispatch(Method::Get, route("/available_packages_for_user/9"), "user_country=RUS") {
        Ok(Operation::FindAvailableShippingForUser { base_product_id: 9, user_country }) => assert_eq!(user_country, "RUS"),
        _ => panic!("not dispatched"),
    }
    let lane = "delivery_from=RUS&delivery_to=USA&volume=1&weight=2";
    match dispatch(Method::Get, route("/v2/available_packages_for_user/9"), lane) {
        Ok(Operation::FindAvailableShippingForUserV2 { base_product_id: 9, delivery_from, delivery_to, volume: 1, weight: 2 }) => {
            assert_eq!((delivery_from.as_str(), delivery_to.as_str()), ("RUS", "USA"));
        }
        _ => panic!("not dispatched"),
    }
    assert!(matches!(
        dispatch(Method::Get, route("/v2/available_packages_for_user/by_shipping_id/4"), lane),
        Ok(Operation::GetAvailablePackageForUserByShippingIdV2 { shipping_id: 4, volume: 1, weight: 2, .. })
    ));
}

#[test]
fn missing_parameters_are_parse_errors_and_unknown_requests_not_found() {
    assert!(matches!(dispatch(Method::Get, route("/companies_packages/8/price"), "from=USA&to=CAN&volume=40"), Err(Error::Parse)));
    assert!(matches!(dispatch(Method::Get, route("/companies_packages/8/price"), "from=USA&to=CAN&volume=x&weight=1"), Err(Error::Parse)));
    assert!(matches!(dispatch(Method::Get, route("/companies_packages/8/rates"), ""), Err(Error::Parse)));
    assert!(matches!(dispatch(Method::Get, route("/available_packages"), "country=USA"), Err(Error::Parse)));
    assert!(matches!(dispatch(Method::Get, route("/available_packages_for_user/9"), "country=RUS"), Err(Error::Parse)));
    assert!(matches!(dispatch(Method::Get, route("/v2/available_packages_for_user/9"), "from=RUS&to=USA&volume=1&weight=2"), Err(Error::Parse)));
    assert!(matches!(dispatch(Method::Put, route("/countries"), ""), Err(Error::NotFound)));
    assert!(matches!(dispatch(Method::Other, route("/countries"), ""), Err(Error::NotFound)));
    assert!(matches!(dispatch(Method::Get, route("/nowhere"), ""), Err(Error::NotFound)));
    assert!(matches!(dispatch(Method::Get, route("/restrictions"), ""), Err(Error::NotFound)));
    assert!(matches!(dispatch(Method::Get, None, ""), Err(Error::NotFound)));
}

#[test]
fn errors_of_the_service_are_told_apart() {
    assert!(Error::Connection.is_internal());
    assert!(Error::Transaction.is_internal());
    assert!(!Error::NotFound.is_internal());
    assert!(!Error::Validate.is_internal());
    assert!(!Error::Parse.is_internal());
    assert!(!Error::AmbiguousMatch.is_internal());
    assert!(!Error::NoApplicableRate.is_internal());
}
