//! The controller's decisions: who is calling, and which operation a
//! request asks for.

use vstd::prelude::*;
use vstd::string::*;
use crate::countries::CountrySearch;
use crate::errors::Error;
use crate::query::{number_param, query_number, query_value, text_param};
use crate::routes::Route;
use crate::text::{chars_of, parse_signed, signed_of};

verus! {

/// The request methods the service tells apart.
#[derive(Clone, Copy, Debug, PartialEq, Eq, Structural)]
pub enum Method {
    Get,
    Post,
    Put,
    Delete,
    Other,
}

/// What a request asks the service to do, with the parameters taken from
/// its path and query. Where the request carries a body, reading it is left
/// to the caller.
pub enum Operation {
    GetRoles { user_id: i32 },
    CreateRole,
    DeleteRolesByUserId { user_id: i32 },
    DeleteRoleById { id: u128 },
    UpsertShipping { base_product_id: i32 },
    GetProducts { base_product_id: i32 },
    DeleteProducts { base_product_id: i32 },
    UpdateProducts { base_product_id: i32, company_package_id: i32 },
    CreateCompany,
    ListCompanies,
    FindCompany { company_id: i32 },
    UpdateCompany { company_id: i32 },
    DeleteCompany { company_id: i32 },
    CreateCompanyPackage,
    GetShippingRates { company_package_id: i32, delivery_from: String },
    ReplaceShippingRates { company_package_id: i32 },
    GetDeliveryPrice {
        company_package_id: i32,
        delivery_from: String,
        delivery_to: String,
        volume: u32,
        weight: u32,
    },
    GetAvailablePackages { country: String, size: u32, weight: u32 },
    FindAvailableShippingForUser { base_product_id: i32, user_country: String },
    FindAvailableShippingForUserV2 {
        base_product_id: i32,
        delivery_from: String,
        delivery_to: String,
        volume: u32,
        weight: u32,
    },
    GetAvailablePackageForUser { base_product_id: i32, company_package_id: i32 },
    GetAvailablePackageForUserByShippingId { shipping_id: i32 },
    GetAvailablePackageForUserByShippingIdV2 {
        shipping_id: i32,
        delivery_from: String,
        delivery_to: String,
        volume: u32,
        weight: u32,
    },
    GetCompanyPackage { company_package_id: i32 },
    GetCompanies { package_id: i32 },
    GetPackages { company_id: i32 },
    DeleteCompanyPackage { company_id: i32, package_id: i32 },
    GetAllCountries,
    GetAllCountriesFlatten,
    FindCountry { search: CountrySearch },
    CreateCountry,
    CreatePackage,
    FindPackage { package_id: i32 },
    ListPackages,
    UpdatePackage { package_id: i32 },
    DeletePackage { package_id: i32 },
    GetAddresses { user_id: i32 },
    CreateAddress,
    UpdateAddress { user_address_id: i32 },
    DeleteAddress { user_address_id: i32 },
}

/// The caller a request names: the user id in its authorization header,
/// where there is a header and it holds a number.
pub open spec fn caller_of(header: Option<Seq<char>>) -> Option<i32> {
    match header {
        Some(text) => match signed_of(text) {
            Some(id) => Some(id as i32),
            None => None,
        },
        None => None,
    }
}

/// Reads the caller's user id from the authorization header.
pub fn caller_id(header: Option<&str>) -> (caller: Option<i32>)
    ensures
        caller == caller_of(
            match header {
                Some(text) => Some(text@),
                None => None,
            },
        ),
{
    match header {
        Some(text) => {
            let chars = chars_of(text);
            assert(chars@.subrange(0, chars@.len() as int) =~= chars@);
            parse_signed(&chars, 0, chars.len())
        },
        None => None,
    }
}

/// The origin, destination, volume and weight of a query, where it gives
/// all four.
pub open spec fn lane_params(query: Seq<char>, from_key: Seq<char>, to_key: Seq<char>) -> Option<
    (Seq<char>, Seq<char>, u32, u32),
> {
    match (
        query_value(query, from_key),
        query_value(query, to_key),
        query_number(query, "volume"@),
        query_number(query, "weight"@),
    ) {
        (Some(from), Some(to), Some(volume), Some(weight)) => Some((from, to, volume, weight)),
        _ => None,
    }
}

/// The country, size and weight of a discovery query, where it gives all
/// three.
pub open spec fn discovery_params(query: Seq<char>) -> Option<(Seq<char>, u32, u32)> {
    match (
        query_value(query, "country"@),
        query_number(query, "size"@),
        query_number(query, "weight"@),
    ) {
        (Some(country), Some(size), Some(weight)) => Some((country, size, weight)),
        _ => None,
    }
}

/// Reads origin, destination, volume and weight from a query.
pub fn read_lane(query: &str, from_key: &str, to_key: &str) -> (lane: Option<
    (String, String, u32, u32),
>)
    ensures
        match lane {
            Some(l) => lane_params(query@, from_key@, to_key@) == Some((l.0@, l.1@, l.2, l.3)),
            None => lane_params(query@, from_key@, to_key@) is None,
        },
{
    match (
        text_param(query, from_key),
        text_param(query, to_key),
        number_param(query, "volume"),
        number_param(query, "weight"),
    ) {
        (Some(from), Some(to), Some(volume), Some(weight)) => Some((from, to, volume, weight)),
        _ => None,
    }
}

/// Reads country, size and weight from a discovery query.
pub fn read_discovery(query: &str) -> (params: Option<(String, u32, u32)>)
    ensures
        match params {
            Some(p) => discovery_params(query@) == Some((p.0@, p.1, p.2)),
            None => discovery_params(query@) is None,
        },
{
    match (text_param(query, "country"), number_param(query, "size"), number_param(query, "weight")) {
        (Some(country), Some(size), Some(weight)) => Some((country, size, weight)),
        _ => None,
    }
}

/// The dispatch table. A method and route that are listed give their
/// operation; where the operation needs query parameters and one is missing
/// or malformed the request fails with `Parse`; anything else is `NotFound`.
pub open spec fn dispatched(
    method: Method,
    route: Option<Route>,
    query: Seq<char>,
    r: Result<Operation, Error>,
) -> bool {
    match (method, route) {
        (Method::Get, Some(Route::CompanyPackageRates { company_package_id })) => match query_value(
            query,
            "from"@,
        ) {
            Some(from) => r matches Ok(Operation::GetShippingRates { company_package_id: id, delivery_from })
                && id == company_package_id && delivery_from@ == from,
            None => r == Err::<Operation, Error>(Error::Parse),
        },
        (Method::Get, Some(Route::CompanyPackageDeliveryPrice { company_package_id })) => match lane_params(
            query,
            "from"@,
            "to"@,
        ) {
            Some(lane) => r matches Ok(
                Operation::GetDeliveryPrice {
                    company_package_id: id,
                    delivery_from,
                    delivery_to,
                    volume,
                    weight,
                },
            ) && id == company_package_id && (delivery_from@, delivery_to@, volume, weight) == lane,
            None => r == Err::<Operation, Error>(Error::Parse),
        },
        (Method::Get, Some(Route::AvailablePackages)) => match discovery_params(query) {
            Some(params) => r matches Ok(Operation::GetAvailablePackages { country, size, weight })
                && (country@, size, weight) == params,
            None => r == Err::<Operation, Error>(Error::Parse),
        },
        (Method::Get, Some(Route::AvailablePackagesForUser { base_product_id })) => match query_value(
            query,
            "user_country"@,
        ) {
            Some(country) => r matches Ok(
                Operation::FindAvailableShippingForUser { base_product_id: id, user_country },
            ) && id == base_product_id && user_country@ == country,
            None => r == Err::<Operation, Error>(Error::Parse),
        },
        (Method::Get, Some(Route::AvailablePackagesForUserV2 { base_product_id })) => match lane_params(
            query,
            "delivery_from"@,
            "delivery_to"@,
        ) {
            Some(lane) => r matches Ok(
                Operation::FindAvailableShippingForUserV2 {
                    base_product_id: id,
                    delivery_from,
                    delivery_to,
                    volume,
                    weight,
                },
            ) && id == base_product_id && (delivery_from@, delivery_to@, volume, weight) == lane,
            None => r == Err::<Operation, Error>(Error::Parse),
        },
        (Method::Get, Some(Route::AvailablePackageForUserByShippingIdV2 { shipping_id })) => match lane_params(
            query,
            "delivery_from"@,
            "delivery_to"@,
        ) {
            Some(lane) => r matches Ok(
                Operation::GetAvailablePackageForUserByShippingIdV2 {
                    shipping_id: id,
                    delivery_from,
                    delivery_to,
                    volume,
                    weight,
                },
            ) && id == shipping_id && (delivery_from@, delivery_to@, volume, weight) == lane,
            None => r == Err::<Operation, Error>(Error::Parse),
        },
        (Method::Get, Some(Route::RolesByUserId { user_id })) => r == Ok::<Operation, Error>(Operation::GetRoles { user_id }),
        (Method::Post, Some(Route::Roles)) => r == Ok::<Operation, Error>(Operation::CreateRole),
        (Method::Delete, Some(Route::RolesByUserId { user_id })) => r == Ok::<Operation, Error>(Operation::DeleteRolesByUserId { user_id }),
        (Method::Delete, Some(Route::RoleById { id })) => r == Ok::<Operation, Error>(Operation::DeleteRoleById { id }),
        (Method::Post, Some(Route::ProductsById { base_product_id })) => r == Ok::<Operation, Error>(Operation::UpsertShipping { base_product_id }),
        (Method::Get, Some(Route::ProductsById { base_product_id })) => r == Ok::<Operation, Error>(Operation::GetProducts { base_product_id }),
        (Method::Delete, Some(Route::ProductsById { base_product_id })) => r == Ok::<Operation, Error>(Operation::DeleteProducts { base_product_id }),
        (Method::Put, Some(Route::ProductsByIdAndCompanyPackageId { base_product_id, company_package_id })) => r == Ok::<Operation, Error>(Operation::UpdateProducts { base_product_id, company_package_id }),
        (Method::Post, Some(Route::Companies)) => r == Ok::<Operation, Error>(Operation::CreateCompany),
        (Method::Get, Some(Route::Companies)) => r == Ok::<Operation, Error>(Operation::ListCompanies),
        (Method::Get, Some(Route::CompanyById { company_id })) => r == Ok::<Operation, Error>(Operation::FindCompany { company_id }),
        (Method::Put, Some(Route::CompanyById { company_id })) => r == Ok::<Operation, Error>(Operation::UpdateCompany { company_id }),
        (Method::Delete, Some(Route::CompanyById { company_id })) => r == Ok::<Operation, Error>(Operation::DeleteCompany { company_id }),
        (Method::Post, Some(Route::CompaniesPackages)) => r == Ok::<Operation, Error>(Operation::CreateCompanyPackage),
        (Method::Post, Some(Route::CompanyPackageRates { company_package_id })) => r == Ok::<Operation, Error>(Operation::ReplaceShippingRates { company_package_id }),
        (Method::Get, Some(Route::AvailablePackageForUser { base_product_id, company_package_id })) => r == Ok::<Operation, Error>(Operation::GetAvailablePackageForUser { base_product_id, company_package_id }),
        (Method::Get, Some(Route::AvailablePackageForUserByShippingId { shipping_id })) => r == Ok::<Operation, Error>(Operation::GetAvailablePackageForUserByShippingId { shipping_id }),
        (Method::Get, Some(Route::CompaniesPackagesById { company_package_id })) => r == Ok::<Operation, Error>(Operation::GetCompanyPackage { company_package_id }),
        (Method::Get, Some(Route::CompaniesByPackageId { package_id })) => r == Ok::<Operation, Error>(Operation::GetCompanies { package_id }),
        (Method::Get, Some(Route::PackagesByCompanyId { company_id })) => r == Ok::<Operation, Error>(Operation::GetPackages { company_id }),
        (Method::Delete, Some(Route::CompaniesPackagesByIds { company_id, package_id })) => r == Ok::<Operation, Error>(Operation::DeleteCompanyPackage { company_id, package_id }),
        (Method::Get, Some(Route::Countries)) => r == Ok::<Operation, Error>(Operation::GetAllCountries),
        (Method::Get, Some(Route::CountriesFlatten)) => r == Ok::<Operation, Error>(Operation::GetAllCountriesFlatten),
        (Method::Get, Some(Route::CountryByAlpha2 { alpha2 })) => r == Ok::<Operation, Error>(Operation::FindCountry { search: CountrySearch::Alpha2(alpha2) }),
        (Method::Get, Some(Route::CountryByAlpha3 { alpha3 })) => r == Ok::<Operation, Error>(Operation::FindCountry { search: CountrySearch::Alpha3(alpha3) }),
        (Method::Get, Some(Route::CountryByNumeric { numeric })) => r == Ok::<Operation, Error>(Operation::FindCountry { search: CountrySearch::Numeric(numeric) }),
        (Method::Post, Some(Route::Countries)) => r == Ok::<Operation, Error>(Operation::CreateCountry),
        (Method::Post, Some(Route::Packages)) => r == Ok::<Operation, Error>(Operation::CreatePackage),
        (Method::Get, Some(Route::PackagesById { package_id })) => r == Ok::<Operation, Error>(Operation::FindPackage { package_id }),
        (Method::Get, Some(Route::Packages)) => r == Ok::<Operation, Error>(Operation::ListPackages),
        (Method::Put, Some(Route::PackagesById { package_id })) => r == Ok::<Operation, Error>(Operation::UpdatePackage { package_id }),
        (Method::Delete, Some(Route::PackagesById { package_id })) => r == Ok::<Operation, Error>(Operation::DeletePackage { package_id }),
        (Method::Get, Some(Route::UserAddress { user_id })) => r == Ok::<Operation, Error>(Operation::GetAddresses { user_id }),
        (Method::Post, Some(Route::UsersAddresses)) => r == Ok::<Operation, Error>(Operation::CreateAddress),
        (Method::Put, Some(Route::UserAddressById { user_address_id })) => r == Ok::<Operation, Error>(Operation::UpdateAddress { user_address_id }),
        (Method::Delete, Some(Route::UserAddressById { user_address_id })) => r == Ok::<Operation, Error>(Operation::DeleteAddress { user_address_id }),
        _ => r == Err::<Operation, Error>(Error::NotFound),
    }
}

/// Decides what a request asks for from its method, the route of its path
/// and its query string.
pub fn dispatch(method: Method, route: Option<Route>, query: &str) -> (r: Result<Operation, Error>)
    ensures
        dispatched(method, route, query@, r),
{
    match (method, route) {
        (Method::Get, Some(Route::CompanyPackageRates { company_package_id })) => match text_param(
            query,
            "from",
        ) {
            Some(delivery_from) => Ok(Operation::GetShippingRates { company_package_id, delivery_from }),
            None => Err(Error::Parse),
        },
        (Method::Get, Some(Route::CompanyPackageDeliveryPrice { company_package_id })) => match read_lane(
            query,
            "from",
            "to",
        ) {
            Some((delivery_from, delivery_to, volume, weight)) => Ok(
                Operation::GetDeliveryPrice {
                    company_package_id,
                    delivery_from,
                    delivery_to,
                    volume,
                    weight,
                },
            ),
            None => Err(Error::Parse),
        },
        (Method::Get, Some(Route::AvailablePackages)) => match read_discovery(query) {
            Some((country, size, weight)) => Ok(Operation::GetAvailablePackages { country, size, weight }),
            None => Err(Error::Parse),
        },
        (Method::Get, Some(Route::AvailablePackagesForUser { base_product_id })) => match text_param(
            query,
            "user_country",
        ) {
            Some(user_country) => Ok(
                Operation::FindAvailableShippingForUser { base_product_id, user_country },
            ),
            None => Err(Error::Parse),
        },
        (Method::Get, Some(Route::AvailablePackagesForUserV2 { base_product_id })) => match read_lane(
            query,
            "delivery_from",
            "delivery_to",
        ) {
            Some((delivery_from, delivery_to, volume, weight)) => Ok(
                Operation::FindAvailableShippingForUserV2 {
                    base_product_id,
                    delivery_from,
                    delivery_to,
                    volume,
                    weight,
                },
            ),
            None => Err(Error::Parse),
        },
        (Method::Get, Some(Route::AvailablePackageForUserByShippingIdV2 { shipping_id })) => match read_lane(
            query,
            "delivery_from",
            "delivery_to",
        ) {
            Some((delivery_from, delivery_to, volume, weight)) => Ok(
                Operation::GetAvailablePackageForUserByShippingIdV2 {
                    shipping_id,
                    delivery_from,
                    delivery_to,
                    volume,
                    weight,
                },
            ),
            None => Err(Error::Parse),
        },
        (Method::Get, Some(Route::RolesByUserId { user_id })) => Ok(Operation::GetRoles { user_id }),
        (Method::Post, Some(Route::Roles)) => Ok(Operation::CreateRole),
        (Method::Delete, Some(Route::RolesByUserId { user_id })) => Ok(Operation::DeleteRolesByUserId { user_id }),
        (Method::Delete, Some(Route::RoleById { id })) => Ok(Operation::DeleteRoleById { id }),
        (Method::Post, Some(Route::ProductsById { base_product_id })) => Ok(Operation::UpsertShipping { base_product_id }),
        (Method::Get, Some(Route::ProductsById { base_product_id })) => Ok(Operation::GetProducts { base_product_id }),
        (Method::Delete, Some(Route::ProductsById { base_product_id })) => Ok(Operation::DeleteProducts { base_product_id }),
        (Method::Put, Some(Route::ProductsByIdAndCompanyPackageId { base_product_id, company_package_id })) => Ok(Operation::UpdateProducts { base_product_id, company_package_id }),
        (Method::Post, Some(Route::Companies)) => Ok(Operation::CreateCompany),
        (Method::Get, Some(Route::Companies)) => Ok(Operation::ListCompanies),
        (Method::Get, Some(Route::CompanyById { company_id })) => Ok(Operation::FindCompany { company_id }),
        (Method::Put, Some(Route::CompanyById { company_id })) => Ok(Operation::UpdateCompany { company_id }),
        (Method::Delete, Some(Route::CompanyById { company_id })) => Ok(Operation::DeleteCompany { company_id }),
        (Method::Post, Some(Route::CompaniesPackages)) => Ok(Operation::CreateCompanyPackage),
        (Method::Post, Some(Route::CompanyPackageRates { company_package_id })) => Ok(Operation::ReplaceShippingRates { company_package_id }),
        (Method::Get, Some(Route::AvailablePackageForUser { base_product_id, company_package_id })) => Ok(Operation::GetAvailablePackageForUser { base_product_id, company_package_id }),
        (Method::Get, Some(Route::AvailablePackageForUserByShippingId { shipping_id })) => Ok(Operation::GetAvailablePackageForUserByShippingId { shipping_id }),
        (Method::Get, Some(Route::CompaniesPackagesById { company_package_id })) => Ok(Operation::GetCompanyPackage { company_package_id }),
        (Method::Get, Some(Route::CompaniesByPackageId { package_id })) => Ok(Operation::GetCompanies { package_id }),
        (Method::Get, Some(Route::PackagesByCompanyId { company_id })) => Ok(Operation::GetPackages { company_id }),
        (Method::Delete, Some(Route::CompaniesPackagesByIds { company_id, package_id })) => Ok(Operation::DeleteCompanyPackage { company_id, package_id }),
        (Method::Get, Some(Route::Countries)) => Ok(Operation::GetAllCountries),
        (Method::Get, Some(Route::CountriesFlatten)) => Ok(Operation::GetAllCountriesFlatten),
        (Method::Get, Some(Route::CountryByAlpha2 { alpha2 })) => Ok(Operation::FindCountry { search: CountrySearch::Alpha2(alpha2) }),
        (Method::Get, Some(Route::CountryByAlpha3 { alpha3 })) => Ok(Operation::FindCountry { search: CountrySearch::Alpha3(alpha3) }),
        (Method::Get, Some(Route::CountryByNumeric { numeric })) => Ok(Operation::FindCountry { search: CountrySearch::Numeric(numeric) }),
        (Method::Post, Some(Route::Countries)) => Ok(Operation::CreateCountry),
        (Method::Post, Some(Route::Packages)) => Ok(Operation::CreatePackage),
        (Method::Get, Some(Route::PackagesById { package_id })) => Ok(Operation::FindPackage { package_id }),
        (Method::Get, Some(Route::Packages)) => Ok(Operation::ListPackages),
        (Method::Put, Some(Route::PackagesById { package_id })) => Ok(Operation::UpdatePackage { package_id }),
        (Method::Delete, Some(Route::PackagesById { package_id })) => Ok(Operation::DeletePackage { package_id }),
        (Method::Get, Some(Route::UserAddress { user_id })) => Ok(Operation::GetAddresses { user_id }),
        (Method::Post, Some(Route::UsersAddresses)) => Ok(Operation::CreateAddress),
        (Method::Put, Some(Route::UserAddressById { user_address_id })) => Ok(Operation::UpdateAddress { user_address_id }),
        (Method::Delete, Some(Route::UserAddressById { user_address_id })) => Ok(Operation::DeleteAddress { user_address_id }),
        _ => Err(Error::NotFound),
    }
}

} // verus!
