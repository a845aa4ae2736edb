//! Lookups in the catalog and the eligibility predicate the resolvers share.

use vstd::prelude::*;
use crate::models::{
    Catalog, Company, CompanyPackage, Package, RateEntry, Restriction, codes_contain,
    contains_code,
};
use crate::ordering::keys_distinct;
use crate::rates::{Tier, tiers_ascending};
use crate::search::{first_index, position_where};
use crate::text::{normal, same_code};

verus! {

/// The companies with the id.
pub open spec fn company_with(id: i32) -> spec_fn(Company) -> bool {
    |c: Company| c.id == id
}

/// The packages with the id.
pub open spec fn package_with(id: i32) -> spec_fn(Package) -> bool {
    |p: Package| p.id == id
}

/// The company packages with the id.
pub open spec fn company_package_with(id: i32) -> spec_fn(CompanyPackage) -> bool {
    |cp: CompanyPackage| cp.id == id
}

/// The restrictions of the company package.
pub open spec fn restriction_of(company_package_id: i32) -> spec_fn(Restriction) -> bool {
    |r: Restriction| r.company_package_id == company_package_id
}

/// The rate entries of the lane: the company package and the origin, the
/// origin's code being held by its normal form.
pub open spec fn rate_of(company_package_id: i32, from: Seq<char>) -> spec_fn(RateEntry) -> bool {
    |r: RateEntry| r.company_package_id == company_package_id && normal(r.from@) == normal(from)
}

/// The position of the first company with the id.
pub fn find_company(companies: &Vec<Company>, id: i32) -> (found: Option<usize>)
    ensures
        match found {
            Some(i) => first_index(companies@, company_with(id)) == Some(i as int),
            None => first_index(companies@, company_with(id)) is None,
        },
{
    let test = |c: &Company| -> (hit: bool)
        ensures
            hit == (c.id == id),
    {
        c.id == id
    };
    position_where(companies, Ghost(company_with(id)), test)
}

/// The position of the first package with the id.
pub fn find_package(packages: &Vec<Package>, id: i32) -> (found: Option<usize>)
    ensures
        match found {
            Some(i) => first_index(packages@, package_with(id)) == Some(i as int),
            None => first_index(packages@, package_with(id)) is None,
        },
{
    let test = |p: &Package| -> (hit: bool)
        ensures
            hit == (p.id == id),
    {
        p.id == id
    };
    position_where(packages, Ghost(package_with(id)), test)
}

/// The position of the first company package with the id.
pub fn find_company_package(companies_packages: &Vec<CompanyPackage>, id: i32) -> (found: Option<
    usize,
>)
    ensures
        match found {
            Some(i) => first_index(companies_packages@, company_package_with(id)) == Some(i as int),
            None => first_index(companies_packages@, company_package_with(id)) is None,
        },
{
    let test = |cp: &CompanyPackage| -> (hit: bool)
        ensures
            hit == (cp.id == id),
    {
        cp.id == id
    };
    position_where(companies_packages, Ghost(company_package_with(id)), test)
}

/// The position of the first restriction of the company package.
pub fn find_restriction(restrictions: &Vec<Restriction>, company_package_id: i32) -> (found: Option<
    usize,
>)
    ensures
        match found {
            Some(i) => first_index(restrictions@, restriction_of(company_package_id)) == Some(
                i as int,
            ),
            None => first_index(restrictions@, restriction_of(company_package_id)) is None,
        },
{
    let test = |r: &Restriction| -> (hit: bool)
        ensures
            hit == (r.company_package_id == company_package_id),
    {
        r.company_package_id == company_package_id
    };
    position_where(restrictions, Ghost(restriction_of(company_package_id)), test)
}

/// The position of the first rate entry of the lane: the company package
/// and the origin country.
pub fn find_rate(rates: &Vec<RateEntry>, company_package_id: i32, from: &String) -> (found: Option<
    usize,
>)
    ensures
        match found {
            Some(i) => first_index(rates@, rate_of(company_package_id, from@)) == Some(i as int),
            None => first_index(rates@, rate_of(company_package_id, from@)) is None,
        },
{
    let test = |r: &RateEntry| -> (hit: bool)
        ensures
            hit == (r.company_package_id == company_package_id && normal(r.from@) == normal(from@)),
    {
        r.company_package_id == company_package_id && same_code(&r.from, from)
    };
    position_where(rates, Ghost(rate_of(company_package_id, from@)), test)
}

/// The company package's restriction admits the destination: it lists it,
/// or lists nothing, or there is no restriction at all.
pub open spec fn admits(catalog: Catalog, company_package_id: i32, to: Seq<char>) -> bool {
    match first_index(catalog.restrictions@, restriction_of(company_package_id)) {
        None => true,
        Some(r) => match catalog.restrictions@[r].deliveries_to {
            None => true,
            Some(list) => codes_contain(list@, to),
        },
    }
}

/// The size ceiling in force: the restriction's override, else what the
/// package declares; none where neither is on record.
pub open spec fn max_size_of(catalog: Catalog, cp: CompanyPackage) -> Option<u32> {
    let declared = match first_index(catalog.packages@, package_with(cp.package_id)) {
        Some(p) => Some(catalog.packages@[p].max_size),
        None => None,
    };
    match first_index(catalog.restrictions@, restriction_of(cp.id)) {
        None => declared,
        Some(r) => match catalog.restrictions@[r].max_size {
            Some(m) => Some(m),
            None => declared,
        },
    }
}

/// The weight ceiling in force, found as the size ceiling is.
pub open spec fn max_weight_of(catalog: Catalog, cp: CompanyPackage) -> Option<u32> {
    let declared = match first_index(catalog.packages@, package_with(cp.package_id)) {
        Some(p) => Some(catalog.packages@[p].max_weight),
        None => None,
    };
    match first_index(catalog.restrictions@, restriction_of(cp.id)) {
        None => declared,
        Some(r) => match catalog.restrictions@[r].max_weight {
            Some(m) => Some(m),
            None => declared,
        },
    }
}

/// The parcel does not exceed the ceilings in force.
pub open spec fn fits(catalog: Catalog, cp: CompanyPackage, size: u32, weight: u32) -> bool {
    &&& max_size_of(catalog, cp) matches Some(s) && size <= s
    &&& max_weight_of(catalog, cp) matches Some(w) && weight <= w
}

/// The company that owns the company package ships from the origin.
pub open spec fn ships_from(catalog: Catalog, cp: CompanyPackage, from: Seq<char>) -> bool {
    match first_index(catalog.companies@, company_with(cp.company_id)) {
        Some(c) => codes_contain(catalog.companies@[c].deliveries_from@, from),
        None => false,
    }
}

/// The eligibility predicate: the destination is admitted, the parcel fits,
/// and the company ships from the origin.
pub open spec fn eligible(
    catalog: Catalog,
    cp: CompanyPackage,
    from: Seq<char>,
    to: Seq<char>,
    size: u32,
    weight: u32,
) -> bool {
    &&& admits(catalog, cp.id, to)
    &&& fits(catalog, cp, size, weight)
    &&& ships_from(catalog, cp, from)
}

/// Whether the company package's restriction admits the destination.
pub fn admits_destination(catalog: &Catalog, company_package_id: i32, to: &String) -> (ok: bool)
    ensures
        ok == admits(*catalog, company_package_id, to@),
{
    match find_restriction(&catalog.restrictions, company_package_id) {
        None => true,
        Some(r) => match &catalog.restrictions[r].deliveries_to {
            None => true,
            Some(list) => contains_code(list, to),
        },
    }
}

/// Whether the parcel is within the ceilings in force for the company
/// package.
pub fn within_ceilings(catalog: &Catalog, cp: &CompanyPackage, size: u32, weight: u32) -> (ok: bool)
    ensures
        ok == fits(*catalog, *cp, size, weight),
{
    let declared = find_package(&catalog.packages, cp.package_id);
    let restriction = find_restriction(&catalog.restrictions, cp.id);
    let mut max_size: Option<u32> = match declared {
        Some(p) => Some(catalog.packages[p].max_size),
        None => None,
    };
    let mut max_weight: Option<u32> = match declared {
        Some(p) => Some(catalog.packages[p].max_weight),
        None => None,
    };
    match restriction {
        Some(r) => {
            match catalog.restrictions[r].max_size {
                Some(m) => {
                    max_size = Some(m);
                },
                None => {},
            }
            match catalog.restrictions[r].max_weight {
                Some(m) => {
                    max_weight = Some(m);
                },
                None => {},
            }
        },
        None => {},
    }
    assert(max_size == max_size_of(*catalog, *cp));
    assert(max_weight == max_weight_of(*catalog, *cp));
    match (max_size, max_weight) {
        (Some(s), Some(w)) => size <= s && weight <= w,
        _ => false,
    }
}

/// Whether the company that owns the company package ships from the origin.
pub fn company_ships_from(catalog: &Catalog, cp: &CompanyPackage, from: &String) -> (ok: bool)
    ensures
        ok == ships_from(*catalog, *cp, from@),
{
    match find_company(&catalog.companies, cp.company_id) {
        Some(c) => contains_code(&catalog.companies[c].deliveries_from, from),
        None => false,
    }
}

/// Evaluates the eligibility predicate.
pub fn is_eligible(
    catalog: &Catalog,
    cp: &CompanyPackage,
    from: &String,
    to: &String,
    size: u32,
    weight: u32,
) -> (ok: bool)
    ensures
        ok == eligible(*catalog, *cp, from@, to@, size, weight),
{
    admits_destination(catalog, cp.id, to) && within_ceilings(catalog, cp, size, weight)
        && company_ships_from(catalog, cp, from)
}


/// A rate table as it is stored: it holds at least one tier and ascends.
pub open spec fn table_in_order(tiers: Seq<Tier>) -> bool {
    tiers.len() > 0 && tiers_ascending(tiers)
}

/// The catalog is well formed: no two company packages have the same id,
/// and every rate table on record holds at least one tier and ascends.
pub open spec fn well_formed_catalog(catalog: Catalog) -> bool {
    &&& keys_distinct(catalog.companies_packages@)
    &&& forall|i: int|
        0 <= i < catalog.rates@.len() ==> table_in_order((#[trigger] catalog.rates@[i]).tiers@)
}

} // verus!
