//! The routes of the service and the grammar of their paths.

use vstd::prelude::*;
use vstd::string::*;
use crate::text::{chars_of, parse_unsigned, pieces, spells, split, split_at_each, unsigned_of};

verus! {

/// Every route of the service, with the parameters its path carries.
pub enum Route {
    Roles,
    RoleById { id: u128 },
    RolesByUserId { user_id: i32 },
    Restrictions,
    DeliveryTo,
    DeliveryToFiltersCompany,
    DeliveryToFiltersCountry,
    ProductsById { base_product_id: i32 },
    ProductsByIdAndCompanyPackageId { base_product_id: i32, company_package_id: i32 },
    Companies,
    CompanyById { company_id: i32 },
    CompaniesPackages,
    CompaniesPackagesById { company_package_id: i32 },
    CompanyPackageRates { company_package_id: i32 },
    CompanyPackageDeliveryPrice { company_package_id: i32 },
    AvailablePackages,
    AvailablePackagesForUser { base_product_id: i32 },
    AvailablePackagesForUserV2 { base_product_id: i32 },
    AvailablePackageForUser { base_product_id: i32, company_package_id: i32 },
    AvailablePackageForUserByShippingId { shipping_id: i32 },
    AvailablePackageForUserByShippingIdV2 { shipping_id: i32 },
    CompaniesByPackageId { package_id: i32 },
    PackagesByCompanyId { company_id: i32 },
    CompaniesPackagesByIds { company_id: i32, package_id: i32 },
    Countries,
    CountriesFlatten,
    CountryByAlpha2 { alpha2: String },
    CountryByAlpha3 { alpha3: String },
    CountryByNumeric { numeric: u32 },
    Packages,
    PackagesById { package_id: i32 },
    UserAddress { user_id: i32 },
    UsersAddresses,
    UserAddressById { user_address_id: i32 },
}

/// The identifier a path piece denotes: decimal digits that fit 32 bits
/// signed.
pub open spec fn id_of(piece: Seq<char>) -> Option<i32> {
    match unsigned_of(piece, 0x7fff_ffff) {
        Some(v) => Some(v as i32),
        None => None,
    }
}

/// A character of a role id as a path carries it: an ASCII letter, a digit
/// or a hyphen.
pub open spec fn is_token_char(c: char) -> bool {
    ('a' <= c && c <= 'z') || ('A' <= c && c <= 'Z') || ('0' <= c && c <= '9') || c == '-'
}

/// A nonempty piece of such characters.
pub open spec fn is_token(piece: Seq<char>) -> bool {
    piece.len() > 0 && forall|i: int| 0 <= i < piece.len() ==> is_token_char(#[trigger] piece[i])
}

/// The 128-bit value of the UUID that a text denotes, where it denotes one.
pub uninterp spec fn uuid_of_str(input: Seq<char>) -> Option<u128>;

/// The role id a path piece denotes.
pub open spec fn role_id_of(piece: Seq<char>) -> Option<u128> {
    if is_token(piece) {
        uuid_of_str(piece)
    } else {
        None
    }
}

/// Calls `uuid::Uuid::parse_str` and, where it succeeds, `Uuid::as_u128`.
/// The contract only names the outcome: the same text always gives the same
/// answer. Which texts denote a UUID is the parser's matter and not stated.
#[verifier::external_body]
fn parse_uuid(input: &str) -> (r: Option<u128>)
    ensures
        r == uuid_of_str(input@),
{
    match uuid::Uuid::parse_str(input) {
        Ok(id) => Some(id.as_u128()),
        Err(_) => None,
    }
}

/// The route of a role id, given whether the path piece is a token and
/// what parsing it as a UUID gave.
pub fn role_by_id(token: bool, parsed: Option<u128>) -> (route: Option<Route>)
    ensures
        route == (if token && parsed is Some {
            Some(Route::RoleById { id: parsed->Some_0 })
        } else {
            None
        }),
{
    if !token {
        return None;
    }
    match parsed {
        Some(id) => Some(Route::RoleById { id }),
        None => None,
    }
}

/// The route that the pieces of a path denote. The pieces are what lies
/// between the slashes, so the first piece, before the leading slash, is
/// empty.
pub open spec fn route_for(p: Seq<Seq<char>>, route: Route) -> bool {
    &&& p.len() >= 2
    &&& p[0].len() == 0
    &&& match route {
        Route::Roles => p.len() == 2 && p[1] == "roles"@,
        Route::RoleById { id } => p.len() == 4 && p[1] == "roles"@ && p[2] == "by-id"@
            && role_id_of(p[3]) == Some(id),
        Route::RolesByUserId { user_id } => p.len() == 4 && p[1] == "roles"@ && p[2]
            == "by-user-id"@ && id_of(p[3]) == Some(user_id),
        Route::Restrictions => p.len() == 2 && p[1] == "restrictions"@,
        Route::DeliveryTo => p.len() == 2 && p[1] == "delivery_to"@,
        Route::DeliveryToFiltersCompany => p.len() == 5 && p[1] == "delivery_to"@ && p[2]
            == "search"@ && p[3] == "filters"@ && p[4] == "company"@,
        Route::DeliveryToFiltersCountry => p.len() == 5 && p[1] == "delivery_to"@ && p[2]
            == "search"@ && p[3] == "filters"@ && p[4] == "country"@,
        Route::ProductsById { base_product_id } => p.len() == 3 && p[1] == "products"@ && id_of(
            p[2],
        ) == Some(base_product_id),
        Route::ProductsByIdAndCompanyPackageId { base_product_id, company_package_id } => p.len()
            == 5 && p[1] == "products"@ && id_of(p[2]) == Some(base_product_id) && p[3]
            == "company_package"@ && id_of(p[4]) == Some(company_package_id),
        Route::Companies => p.len() == 2 && p[1] == "companies"@,
        Route::CompanyById { company_id } => p.len() == 3 && p[1] == "companies"@ && id_of(p[2])
            == Some(company_id),
        Route::CompaniesPackages => p.len() == 2 && p[1] == "companies_packages"@,
        Route::CompaniesPackagesById { company_package_id } => p.len() == 3 && p[1]
            == "companies_packages"@ && id_of(p[2]) == Some(company_package_id),
        Route::CompanyPackageRates { company_package_id } => p.len() == 4 && p[1]
            == "companies_packages"@ && id_of(p[2]) == Some(company_package_id) && p[3]
            == "rates"@,
        Route::CompanyPackageDeliveryPrice { company_package_id } => p.len() == 4 && p[1]
            == "companies_packages"@ && id_of(p[2]) == Some(company_package_id) && p[3]
            == "price"@,
        Route::AvailablePackages => p.len() == 2 && p[1] == "available_packages"@,
        Route::AvailablePackagesForUser { base_product_id } => p.len() == 3 && p[1]
            == "available_packages_for_user"@ && id_of(p[2]) == Some(base_product_id),
        Route::AvailablePackagesForUserV2 { base_product_id } => p.len() == 4 && p[1] == "v2"@
            && p[2] == "available_packages_for_user"@ && id_of(p[3]) == Some(base_product_id),
        Route::AvailablePackageForUser { base_product_id, company_package_id } => p.len() == 6
            && p[1] == "available_packages_for_user"@ && p[2] == "products"@ && id_of(p[3])
            == Some(base_product_id) && p[4] == "companies_packages"@ && id_of(p[5]) == Some(
            company_package_id,
        ),
        Route::AvailablePackageForUserByShippingId { shipping_id } => p.len() == 4 && p[1]
            == "available_packages_for_user"@ && p[2] == "by_shipping_id"@ && id_of(p[3])
            == Some(shipping_id),
        Route::AvailablePackageForUserByShippingIdV2 { shipping_id } => p.len() == 5 && p[1]
            == "v2"@ && p[2] == "available_packages_for_user"@ && p[3] == "by_shipping_id"@
            && id_of(p[4]) == Some(shipping_id),
        Route::CompaniesByPackageId { package_id } => p.len() == 4 && p[1] == "packages"@
            && id_of(p[2]) == Some(package_id) && p[3] == "companies"@,
        Route::PackagesByCompanyId { company_id } => p.len() == 4 && p[1] == "companies"@
            && id_of(p[2]) == Some(company_id) && p[3] == "packages"@,
        Route::CompaniesPackagesByIds { company_id, package_id } => p.len() == 5 && p[1]
            == "companies"@ && id_of(p[2]) == Some(company_id) && p[3] == "packages"@ && id_of(
            p[4],
        ) == Some(package_id),
        Route::Countries => p.len() == 2 && p[1] == "countries"@,
        Route::CountriesFlatten => p.len() == 3 && p[1] == "countries"@ && p[2] == "flatten"@,
        Route::CountryByAlpha2 { alpha2 } => p.len() == 4 && p[1] == "countries"@ && p[2]
            == "alpha2"@ && p[3].len() > 0 && p[3] == alpha2@,
        Route::CountryByAlpha3 { alpha3 } => p.len() == 4 && p[1] == "countries"@ && p[2]
            == "alpha3"@ && p[3].len() > 0 && p[3] == alpha3@,
        Route::CountryByNumeric { numeric } => p.len() == 4 && p[1] == "countries"@ && p[2]
            == "numeric"@ && unsigned_of(p[3], 0x7fff_ffff) == Some(numeric as nat),
        Route::Packages => p.len() == 2 && p[1] == "packages"@,
        Route::PackagesById { package_id } => p.len() == 3 && p[1] == "packages"@ && id_of(p[2])
            == Some(package_id),
        Route::UserAddress { user_id } => p.len() == 4 && p[1] == "users"@ && id_of(p[2])
            == Some(user_id) && p[3] == "addresses"@,
        Route::UsersAddresses => p.len() == 3 && p[1] == "users"@ && p[2] == "addresses"@,
        Route::UserAddressById { user_address_id } => p.len() == 4 && p[1] == "users"@ && p[2]
            == "addresses"@ && id_of(p[3]) == Some(user_address_id),
    }
}


/// The bounds mark pieces of the characters.
pub open spec fn bounds_within(chars: Seq<char>, bounds: Seq<(usize, usize)>) -> bool {
    forall|k: int| 0 <= k < bounds.len() ==> (#[trigger] bounds[k]).0 <= bounds[k].1 <= chars.len()
}

/// No route has these pieces.
pub open spec fn no_route(p: Seq<Seq<char>>) -> bool {
    forall|route: Route| !#[trigger] route_for(p, route)
}

/// What a search for the route of some pieces may answer.
pub open spec fn answers(p: Seq<Seq<char>>, found: Option<Route>) -> bool {
    match found {
        Some(route) => route_for(p, route),
        None => no_route(p),
    }
}

fn piece_is(chars: &Vec<char>, bounds: &Vec<(usize, usize)>, k: usize, word: &str) -> (same: bool)
    requires
        bounds_within(chars@, bounds@),
        k < bounds.len(),
    ensures
        same == (pieces(chars@, bounds@)[k as int] == word@),
{
    let b = bounds[k];
    spells(chars, b.0, b.1, word)
}

fn piece_id(chars: &Vec<char>, bounds: &Vec<(usize, usize)>, k: usize) -> (id: Option<i32>)
    requires
        bounds_within(chars@, bounds@),
        k < bounds.len(),
    ensures
        id == id_of(pieces(chars@, bounds@)[k as int]),
{
    let b = bounds[k];
    match parse_unsigned(chars, b.0, b.1, 0x7fff_ffff) {
        Some(v) => Some(v as i32),
        None => None,
    }
}

fn piece_is_token(chars: &Vec<char>, bounds: &Vec<(usize, usize)>, k: usize) -> (token: bool)
    requires
        bounds_within(chars@, bounds@),
        k < bounds.len(),
    ensures
        token == is_token(pieces(chars@, bounds@)[k as int]),
{
    let b = bounds[k];
    let ghost piece = chars@.subrange(b.0 as int, b.1 as int);
    if b.0 == b.1 {
        return false;
    }
    let mut i: usize = b.0;
    while i < b.1
        invariant
            b.0 <= i <= b.1 <= chars.len(),
            piece == chars@.subrange(b.0 as int, b.1 as int),
            piece == pieces(chars@, bounds@)[k as int],
            forall|j: int| 0 <= j < i - b.0 ==> is_token_char(#[trigger] piece[j]),
        decreases b.1 - i,
    {
        let c = chars[i];
        assert(piece[i - b.0] == c);
        if !((c >= 'a' && c <= 'z') || (c >= 'A' && c <= 'Z') || (c >= '0' && c <= '9') || c == '-') {
            return false;
        }
        i += 1;
    }
    true
}

fn route_of_two(chars: &Vec<char>, bounds: &Vec<(usize, usize)>) -> (found: Option<Route>)
    requires
        bounds_within(chars@, bounds@),
        bounds.len() == 2,
        pieces(chars@, bounds@)[0].len() == 0,
    ensures
        answers(pieces(chars@, bounds@), found),
{
    if piece_is(chars, bounds, 1, "roles") {
        return Some(Route::Roles);
    }
    if piece_is(chars, bounds, 1, "restrictions") {
        return Some(Route::Restrictions);
    }
    if piece_is(chars, bounds, 1, "delivery_to") {
        return Some(Route::DeliveryTo);
    }
    if piece_is(chars, bounds, 1, "companies") {
        return Some(Route::Companies);
    }
    if piece_is(chars, bounds, 1, "companies_packages") {
        return Some(Route::CompaniesPackages);
    }
    if piece_is(chars, bounds, 1, "available_packages") {
        return Some(Route::AvailablePackages);
    }
    if piece_is(chars, bounds, 1, "countries") {
        return Some(Route::Countries);
    }
    if piece_is(chars, bounds, 1, "packages") {
        return Some(Route::Packages);
    }
    None
}

fn route_of_three(chars: &Vec<char>, bounds: &Vec<(usize, usize)>) -> (found: Option<Route>)
    requires
        bounds_within(chars@, bounds@),
        bounds.len() == 3,
        pieces(chars@, bounds@)[0].len() == 0,
    ensures
        answers(pieces(chars@, bounds@), found),
{
    if piece_is(chars, bounds, 1, "countries") && piece_is(chars, bounds, 2, "flatten") {
        return Some(Route::CountriesFlatten);
    }
    if piece_is(chars, bounds, 1, "users") && piece_is(chars, bounds, 2, "addresses") {
        return Some(Route::UsersAddresses);
    }
    match piece_id(chars, bounds, 2) {
        Some(id) => {
            if piece_is(chars, bounds, 1, "products") {
                return Some(Route::ProductsById { base_product_id: id });
            }
            if piece_is(chars, bounds, 1, "companies") {
                return Some(Route::CompanyById { company_id: id });
            }
            if piece_is(chars, bounds, 1, "companies_packages") {
                return Some(Route::CompaniesPackagesById { company_package_id: id });
            }
            if piece_is(chars, bounds, 1, "available_packages_for_user") {
                return Some(Route::AvailablePackagesForUser { base_product_id: id });
            }
            if piece_is(chars, bounds, 1, "packages") {
                return Some(Route::PackagesById { package_id: id });
            }
            None
        },
        None => None,
    }
}


fn route_of_four(path: &str, chars: &Vec<char>, bounds: &Vec<(usize, usize)>) -> (found: Option<Route>)
    requires
        path@ == chars@,
        bounds_within(chars@, bounds@),
        bounds.len() == 4,
        pieces(chars@, bounds@)[0].len() == 0,
    ensures
        answers(pieces(chars@, bounds@), found),
{
    let last = bounds[3];
    if piece_is(chars, bounds, 1, "roles") {
        if piece_is(chars, bounds, 2, "by-id") {
            let token = piece_is_token(chars, bounds, 3);
            let parsed = parse_uuid(path.substring_char(last.0, last.1));
            match role_by_id(token, parsed) {
                Some(route) => {
                    return Some(route);
                },
                None => {},
            }
        }
        if piece_is(chars, bounds, 2, "by-user-id") {
            match piece_id(chars, bounds, 3) {
                Some(id) => {
                    return Some(Route::RolesByUserId { user_id: id });
                },
                None => {},
            }
        }
    }
    if piece_is(chars, bounds, 1, "countries") && last.0 < last.1 {
        if piece_is(chars, bounds, 2, "alpha2") {
            let code = String::from_str(path.substring_char(last.0, last.1));
            return Some(Route::CountryByAlpha2 { alpha2: code });
        }
        if piece_is(chars, bounds, 2, "alpha3") {
            let code = String::from_str(path.substring_char(last.0, last.1));
            return Some(Route::CountryByAlpha3 { alpha3: code });
        }
        if piece_is(chars, bounds, 2, "numeric") {
            match parse_unsigned(chars, last.0, last.1, 0x7fff_ffff) {
                Some(v) => {
                    return Some(Route::CountryByNumeric { numeric: v as u32 });
                },
                None => {},
            }
        }
    }
    match piece_id(chars, bounds, 3) {
        Some(id) => {
            if piece_is(chars, bounds, 1, "v2") && piece_is(
                chars,
                bounds,
                2,
                "available_packages_for_user",
            ) {
                return Some(Route::AvailablePackagesForUserV2 { base_product_id: id });
            }
            if piece_is(chars, bounds, 1, "available_packages_for_user") && piece_is(
                chars,
                bounds,
                2,
                "by_shipping_id",
            ) {
                return Some(Route::AvailablePackageForUserByShippingId { shipping_id: id });
            }
            if piece_is(chars, bounds, 1, "users") && piece_is(chars, bounds, 2, "addresses") {
                return Some(Route::UserAddressById { user_address_id: id });
            }
        },
        None => {},
    }
    match piece_id(chars, bounds, 2) {
        Some(id) => {
            if piece_is(chars, bounds, 1, "companies_packages") {
                if piece_is(chars, bounds, 3, "rates") {
                    return Some(Route::CompanyPackageRates { company_package_id: id });
                }
                if piece_is(chars, bounds, 3, "price") {
                    return Some(Route::CompanyPackageDeliveryPrice { company_package_id: id });
                }
            }
            if piece_is(chars, bounds, 1, "packages") && piece_is(chars, bounds, 3, "companies") {
                return Some(Route::CompaniesByPackageId { package_id: id });
            }
            if piece_is(chars, bounds, 1, "companies") && piece_is(chars, bounds, 3, "packages") {
                return Some(Route::PackagesByCompanyId { company_id: id });
            }
            if piece_is(chars, bounds, 1, "users") && piece_is(chars, bounds, 3, "addresses") {
                return Some(Route::UserAddress { user_id: id });
            }
        },
        None => {},
    }
    None
}

fn route_of_five(chars: &Vec<char>, bounds: &Vec<(usize, usize)>) -> (found: Option<Route>)
    requires
        bounds_within(chars@, bounds@),
        bounds.len() == 5,
        pieces(chars@, bounds@)[0].len() == 0,
    ensures
        answers(pieces(chars@, bounds@), found),
{
    if piece_is(chars, bounds, 1, "delivery_to") && piece_is(chars, bounds, 2, "search") && piece_is(
        chars,
        bounds,
        3,
        "filters",
    ) {
        if piece_is(chars, bounds, 4, "company") {
            return Some(Route::DeliveryToFiltersCompany);
        }
        if piece_is(chars, bounds, 4, "country") {
            return Some(Route::DeliveryToFiltersCountry);
        }
    }
    match piece_id(chars, bounds, 4) {
        Some(second) => {
            if piece_is(chars, bounds, 1, "v2") && piece_is(
                chars,
                bounds,
                2,
                "available_packages_for_user",
            ) && piece_is(chars, bounds, 3, "by_shipping_id") {
                return Some(Route::AvailablePackageForUserByShippingIdV2 { shipping_id: second });
            }
            match piece_id(chars, bounds, 2) {
                Some(first) => {
                    if piece_is(chars, bounds, 1, "products") && piece_is(
                        chars,
                        bounds,
                        3,
                        "company_package",
                    ) {
                        return Some(
                            Route::ProductsByIdAndCompanyPackageId {
                                base_product_id: first,
                                company_package_id: second,
                            },
                        );
                    }
                    if piece_is(chars, bounds, 1, "companies") && piece_is(
                        chars,
                        bounds,
                        3,
                        "packages",
                    ) {
                        return Some(
                            Route::CompaniesPackagesByIds { company_id: first, package_id: second },
                        );
                    }
                },
                None => {},
            }
        },
        None => {},
    }
    None
}

fn route_of_six(chars: &Vec<char>, bounds: &Vec<(usize, usize)>) -> (found: Option<Route>)
    requires
        bounds_within(chars@, bounds@),
        bounds.len() == 6,
        pieces(chars@, bounds@)[0].len() == 0,
    ensures
        answers(pieces(chars@, bounds@), found),
{
    if piece_is(chars, bounds, 1, "available_packages_for_user") && piece_is(
        chars,
        bounds,
        2,
        "products",
    ) && piece_is(chars, bounds, 4, "companies_packages") {
        match (piece_id(chars, bounds, 3), piece_id(chars, bounds, 5)) {
            (Some(first), Some(second)) => {
                return Some(
                    Route::AvailablePackageForUser {
                        base_product_id: first,
                        company_package_id: second,
                    },
                );
            },
            _ => {},
        }
    }
    None
}

/// Finds the route of a path.
pub struct RouteParser {}

/// The parser for the routes of the service.
pub fn create_route_parser() -> RouteParser {
    RouteParser {  }
}

impl RouteParser {
    /// The route a path denotes, if it denotes one. The path is split at
    /// its slashes and the pieces are held against each route's pattern.
    pub fn test(&self, path: &str) -> (found: Option<Route>)
        ensures
            answers(split_at_each(path@, '/'), found),
    {
        let chars = chars_of(path);
        let bounds = split(&chars, '/');
        let ghost p = pieces(chars@, bounds@);
        let n = bounds.len();
        if n < 2 || bounds[0].0 != bounds[0].1 {
            assert(p[0].len() == bounds@[0].1 - bounds@[0].0);
            assert(no_route(p));
            return None;
        }
        if n == 2 {
            route_of_two(&chars, &bounds)
        } else if n == 3 {
            route_of_three(&chars, &bounds)
        } else if n == 4 {
            route_of_four(path, &chars, &bounds)
        } else if n == 5 {
            route_of_five(&chars, &bounds)
        } else if n == 6 {
            route_of_six(&chars, &bounds)
        } else {
            assert(no_route(p));
            None
        }
    }
}


/// Two routes are the same: the same kind with the same parameters, country
/// codes being held by what they spell.
pub open spec fn same_route(a: Route, b: Route) -> bool {
    match (a, b) {
        (Route::CountryByAlpha2 { alpha2: x }, Route::CountryByAlpha2 { alpha2: y }) => x@ == y@,
        (Route::CountryByAlpha3 { alpha3: x }, Route::CountryByAlpha3 { alpha3: y }) => x@ == y@,
        _ => a == b,
    }
}

/// A path has at most one route.
pub proof fn lemma_route_is_unique(p: Seq<Seq<char>>, a: Route, b: Route)
    requires
        route_for(p, a),
        route_for(p, b),
    ensures
        same_route(a, b),
{
    reveal_strlit("roles");
    reveal_strlit("by-id");
    reveal_strlit("by-user-id");
    reveal_strlit("restrictions");
    reveal_strlit("delivery_to");
    reveal_strlit("search");
    reveal_strlit("filters");
    reveal_strlit("company");
    reveal_strlit("country");
    reveal_strlit("products");
    reveal_strlit("company_package");
    reveal_strlit("companies");
    reveal_strlit("companies_packages");
    reveal_strlit("rates");
    reveal_strlit("price");
    reveal_strlit("available_packages");
    reveal_strlit("available_packages_for_user");
    reveal_strlit("v2");
    reveal_strlit("by_shipping_id");
    reveal_strlit("packages");
    reveal_strlit("countries");
    reveal_strlit("flatten");
    reveal_strlit("alpha2");
    reveal_strlit("alpha3");
    reveal_strlit("numeric");
    reveal_strlit("users");
    reveal_strlit("addresses");
    assert("roles"@.len() == 5);
    assert("by-id"@.len() == 5);
    assert("by-user-id"@.len() == 10);
    assert("restrictions"@.len() == 12);
    assert("delivery_to"@.len() == 11);
    assert("search"@.len() == 6);
    assert("filters"@.len() == 7);
    assert("company"@.len() == 7);
    assert("country"@.len() == 7);
    assert("products"@.len() == 8);
    assert("company_package"@.len() == 15);
    assert("companies"@.len() == 9);
    assert("companies_packages"@.len() == 18);
    assert("rates"@.len() == 5);
    assert("price"@.len() == 5);
    assert("available_packages"@.len() == 18);
    assert("available_packages_for_user"@.len() == 27);
    assert("v2"@.len() == 2);
    assert("by_shipping_id"@.len() == 14);
    assert("packages"@.len() == 8);
    assert("countries"@.len() == 9);
    assert("flatten"@.len() == 7);
    assert("alpha2"@.len() == 6);
    assert("alpha3"@.len() == 6);
    assert("numeric"@.len() == 7);
    assert("users"@.len() == 5);
    assert("addresses"@.len() == 9);
    assert("roles"@[0] == 'r');
    assert("users"@[0] == 'u');
    assert("products"@[1] == 'r');
    assert("packages"@[1] == 'a');
    assert("companies"@[2] == 'm');
    assert("countries"@[2] == 'u');
    assert("companies_packages"@[0] == 'c');
    assert("available_packages"@[0] == 'a');
    assert("alpha2"@[5] == '2');
    assert("alpha3"@[5] == '3');
    assert("rates"@[0] == 'r');
    assert("price"@[0] == 'p');
    assert("company"@[2] == 'm');
    assert("country"@[2] == 'u');
    assert("addresses"@[0] == 'a');
    assert("flatten"@[0] == 'f');
}

} // verus!
