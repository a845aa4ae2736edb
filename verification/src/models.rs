//! The catalog: companies, packages, a company's offerings of a package,
//! their restrictions and rate tables, and the bindings of products to
//! offerings.

use vstd::prelude::*;
use crate::acl::Ownership;
use crate::rates::Tier;
use crate::text::{normal, same_code};

verus! {

/// A shipping company and the countries it ships from.
pub struct Company {
    pub id: i32,
    pub name: String,
    pub label: String,
    pub logo: String,
    pub currency: String,
    /// Alpha-3 codes of the origin countries.
    pub deliveries_from: Vec<String>,
}

/// A service tier, independent of any company, with its capacity ceiling.
pub struct Package {
    pub id: i32,
    pub name: String,
    pub max_size: u32,
    pub max_weight: u32,
    /// Alpha-3 codes of the default destination countries.
    pub deliveries_to: Vec<String>,
}

/// A company's offering of a package. The pair (company, package) need not
/// be unique.
pub struct CompanyPackage {
    pub id: i32,
    pub company_id: i32,
    pub package_id: i32,
    pub name: String,
    pub currency: String,
}

/// Limits on one company package: the destinations it admits and overrides
/// of the package's ceilings. An absent part leaves that aspect unrestricted
/// (destinations) or as the package declares it (ceilings).
pub struct Restriction {
    pub company_package_id: i32,
    pub deliveries_to: Option<Vec<String>>,
    pub max_size: Option<u32>,
    pub max_weight: Option<u32>,
}

/// The price tiers of one company package for parcels leaving one country.
pub struct RateEntry {
    pub company_package_id: i32,
    pub from: String,
    pub tiers: Vec<Tier>,
}

/// The binding of a base product to a company package it may ship with.
#[derive(Clone, Copy, Debug, PartialEq, Eq)]
pub struct Products {
    pub id: i32,
    pub base_product_id: i32,
    pub store_id: i32,
    pub company_package_id: i32,
    pub price: Option<u64>,
}

/// A binding together with the countries its package delivers to.
pub struct ProductsWithAvailableCountries(pub Products, pub Vec<String>);

/// An amount of money, in minor units of the currency named.
pub struct Price {
    pub amount: u64,
    pub currency: String,
}

/// What a resolver answers: the binding and company package that can carry
/// the parcel, the price where there is one, and the destination matched.
pub struct AvailablePackage {
    pub shipping_id: i32,
    pub base_product_id: i32,
    pub company_package_id: i32,
    pub price: Option<Price>,
    pub deliveries_to: String,
}

/// An address a user has entered to have parcels delivered to.
pub struct UserAddress {
    pub id: i32,
    pub user_id: i32,
    /// Alpha-3 code of the country.
    pub country: String,
    pub address: String,
    pub postal_code: String,
    pub is_priority: bool,
}

impl Ownership for UserAddress {
    open spec fn owner_key_spec(&self) -> Option<i32> {
        Some(self.user_id)
    }

    fn owner_key(&self) -> (key: Option<i32>) {
        Some(self.user_id)
    }
}

/// Everything the resolvers read.
pub struct Catalog {
    pub companies: Vec<Company>,
    pub packages: Vec<Package>,
    pub companies_packages: Vec<CompanyPackage>,
    pub restrictions: Vec<Restriction>,
    pub rates: Vec<RateEntry>,
    pub products: Vec<Products>,
}

impl Ownership for Products {
    open spec fn owner_key_spec(&self) -> Option<i32> {
        Some(self.store_id)
    }

    fn owner_key(&self) -> (key: Option<i32>) {
        Some(self.store_id)
    }
}

impl Ownership for CompanyPackage {
    open spec fn owner_key_spec(&self) -> Option<i32> {
        None
    }

    fn owner_key(&self) -> (key: Option<i32>) {
        None
    }
}

impl Clone for CompanyPackage {
    fn clone(&self) -> (copy: Self)
        ensures
            copy == *self,
    {
        CompanyPackage {
            id: self.id,
            company_id: self.company_id,
            package_id: self.package_id,
            name: self.name.clone(),
            currency: self.currency.clone(),
        }
    }
}

/// The list holds the code, codes being held by their normal form.
pub open spec fn codes_contain(codes: Seq<String>, code: Seq<char>) -> bool {
    exists|i: int| 0 <= i < codes.len() && normal((#[trigger] codes[i])@) == normal(code)
}

/// Whether a list of country codes holds the code.
pub fn contains_code(codes: &Vec<String>, code: &String) -> (found: bool)
    ensures
        found == codes_contain(codes@, code@),
{
    let mut i: usize = 0;
    while i < codes.len()
        invariant
            0 <= i <= codes.len(),
            forall|j: int| 0 <= j < i ==> normal((#[trigger] codes@[j])@) != normal(code@),
        decreases codes.len() - i,
    {
        if same_code(&codes[i], code) {
            return true;
        }
        i += 1;
    }
    false
}

/// Copies a list of country codes.
pub fn clone_codes(codes: &Vec<String>) -> (copy: Vec<String>)
    ensures
        copy@ == codes@,
{
    let mut copy: Vec<String> = Vec::new();
    let mut i: usize = 0;
    while i < codes.len()
        invariant
            0 <= i <= codes.len(),
            copy@ == codes@.take(i as int),
        decreases codes.len() - i,
    {
        copy.push(codes[i].clone());
        assert(codes@.take(i + 1) =~= codes@.take(i as int).push(codes@[i as int]));
        i += 1;
    }
    assert(codes@.take(codes@.len() as int) =~= codes@);
    copy
}

} // verus!
