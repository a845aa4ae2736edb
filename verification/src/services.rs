//! One operation per use case: the access check first, then the directory
//! or resolver call.

use vstd::prelude::*;
use crate::acl::{Action, Forbidden, Ownership, Resource, UserRole, allowed, authorize};
use crate::availability::{
    BindingKey, bound_to, can_carry_from, discovery_refusal, first_admitted, unique_binding,
    with_shipping_id,
};
use crate::countries::{
    Country, CountryDirectory, CountrySearch, NewCountry, country_of, create_refusal, has_label,
    search_predicate,
};
use crate::errors::Error;
use crate::catalog::{
    company_package_with, company_with, find_company, find_company_package, find_package,
    package_with,
};
use crate::catalog::{find_rate, rate_of, well_formed_catalog};
use crate::resolver::lane_table;
use crate::models::{AvailablePackage, Catalog, CompanyPackage, Price, Products, RateEntry};
use crate::rates::{Tier, is_ascending, tiers_ascending};
use crate::naming::{company_package_name_spec, get_company_package_name};
use crate::ordering::sorted_by_key;
use crate::resolver::{delivery_price, stored_code};
use crate::ordering::{Keyed, keys_distinct};
use crate::search::{first_index, lemma_first_index, position_where};
use crate::tree::{CountryTree, is_tree_of, root_country};

verus! {

/// The caller may perform the action on the resource as a whole, no entity
/// having been located.
pub open spec fn admitted(
    roles: Seq<UserRole>,
    caller: Option<i32>,
    resource: Resource,
    action: Action,
) -> bool {
    allowed(roles, caller, resource, action, None)
}

/// The error a denied request is reported with.
pub open spec fn refused(resource: Resource, action: Action) -> Error {
    Error::Forbidden(Forbidden { resource, action })
}

/// The access check that precedes every operation.
pub fn gate(roles: &Vec<UserRole>, caller: Option<i32>, resource: Resource, action: Action) -> (r:
    Result<(), Error>)
    ensures
        r == (if admitted(roles@, caller, resource, action) {
            Ok::<(), Error>(())
        } else {
            Err::<(), Error>(refused(resource, action))
        }),
{
    match authorize::<Country>(roles, caller, resource, action, None) {
        Ok(_) => Ok(()),
        Err(e) => Err(Error::Forbidden(e)),
    }
}

/// The country with the label, for a caller who may read countries;
/// `NotFound` where no country has the label.
pub fn get_country(
    roles: &Vec<UserRole>,
    caller: Option<i32>,
    directory: &CountryDirectory,
    label: &String,
) -> (r: Result<Country, Error>)
    ensures
        r == (if !admitted(roles@, caller, Resource::Countries, Action::Read) {
            Err::<Country, Error>(refused(Resource::Countries, Action::Read))
        } else {
            match first_index(directory@, has_label(label@)) {
                Some(i) => Ok::<Country, Error>(directory@[i]),
                None => Err::<Country, Error>(Error::NotFound),
            }
        }),
{
    match gate(roles, caller, Resource::Countries, Action::Read) {
        Err(e) => Err(e),
        Ok(_) => match directory.find(label) {
            Some(country) => Ok(country),
            None => Err(Error::NotFound),
        },
    }
}

/// The country a search key selects, for a caller who may read countries.
pub fn find_country(
    roles: &Vec<UserRole>,
    caller: Option<i32>,
    directory: &CountryDirectory,
    search: &CountrySearch,
) -> (r: Result<Country, Error>)
    ensures
        r == (if !admitted(roles@, caller, Resource::Countries, Action::Read) {
            Err::<Country, Error>(refused(Resource::Countries, Action::Read))
        } else {
            match first_index(directory@, search_predicate(*search)) {
                Some(i) => Ok::<Country, Error>(directory@[i]),
                None => Err::<Country, Error>(Error::NotFound),
            }
        }),
{
    match gate(roles, caller, Resource::Countries, Action::Read) {
        Err(e) => Err(e),
        Ok(_) => directory.resolve(search),
    }
}

/// Adds a country, for a caller who may create countries. A denied or
/// refused request leaves the directory as it was.
pub fn create_country(
    roles: &Vec<UserRole>,
    caller: Option<i32>,
    directory: &mut CountryDirectory,
    new: NewCountry,
) -> (r: Result<Country, Error>)
    requires
        old(directory).wf(),
    ensures
        final(directory).wf(),
        if !admitted(roles@, caller, Resource::Countries, Action::Create) {
            r == Err::<Country, Error>(refused(Resource::Countries, Action::Create)) && final(directory)@ == old(directory)@
        } else {
            match create_refusal(old(directory)@, new) {
                Some(e) => r == Err::<Country, Error>(e) && final(directory)@ == old(directory)@,
                None => r == Ok::<Country, Error>(country_of(new)) && final(directory)@ == old(directory)@.push(country_of(new)),
            }
        },
{
    match gate(roles, caller, Resource::Countries, Action::Create) {
        Err(e) => Err(e),
        Ok(_) => directory.create(new),
    }
}

/// The tree of all countries, for a caller who may read countries.
pub fn get_all_countries(roles: &Vec<UserRole>, caller: Option<i32>, directory: &CountryDirectory) -> (r:
    Result<CountryTree, Error>)
    requires
        directory.wf(),
    ensures
        if !admitted(roles@, caller, Resource::Countries, Action::Read) {
            r is Err && r->Err_0 == refused(Resource::Countries, Action::Read)
        } else {
            match first_index(directory@, root_country()) {
                None => r is Err && r->Err_0 == Error::NotFound,
                Some(root) => r matches Ok(t) && is_tree_of(t, directory@, root),
            }
        },
{
    match gate(roles, caller, Resource::Countries, Action::Read) {
        Err(e) => Err(e),
        Ok(_) => directory.tree(),
    }
}

/// All countries in pre-order, for a caller who may read countries.
pub fn get_all_flatten(roles: &Vec<UserRole>, caller: Option<i32>, directory: &CountryDirectory) -> (r:
    Result<Vec<Country>, Error>)
    requires
        directory.wf(),
    ensures
        if !admitted(roles@, caller, Resource::Countries, Action::Read) {
            r is Err && r->Err_0 == refused(Resource::Countries, Action::Read)
        } else {
            match first_index(directory@, root_country()) {
                None => r is Err && r->Err_0 == Error::NotFound,
                Some(root) => r matches Ok(list) && list@.len() == directory@.len() && exists|
                    t: CountryTree,
                |
                    {
                        &&& #[trigger] is_tree_of(t, directory@, root)
                        &&& list@.len() == t.order().len()
                        &&& forall|k: int|
                            0 <= k < list@.len() ==> 0 <= #[trigger] t.order()[k] < directory@.len()
                                && list@[k] == directory@[t.order()[k] as int]
                    },
            }
        },
{
    match gate(roles, caller, Resource::Countries, Action::Read) {
        Err(e) => Err(e),
        Ok(_) => directory.flatten(),
    }
}

/// Package discovery for a caller who may read company packages.
pub fn find_available_from(
    roles: &Vec<UserRole>,
    caller: Option<i32>,
    directory: &CountryDirectory,
    catalog: &Catalog,
    country: &String,
    size: u32,
    weight: u32,
) -> (r: Result<Vec<CompanyPackage>, Error>)
    ensures
        if !admitted(roles@, caller, Resource::CompaniesPackages, Action::Read) {
            r is Err && r->Err_0 == refused(Resource::CompaniesPackages, Action::Read)
        } else {
            match discovery_refusal(directory@, country@, size, weight) {
                Some(e) => r is Err && r->Err_0 == e,
                None => r matches Ok(found) && sorted_by_key(found@) && found@.to_multiset()
                    == catalog.companies_packages@.filter(
                    can_carry_from(*catalog, stored_code(directory@, country@)@, size, weight),
                ).to_multiset(),
            }
        },
{
    match gate(roles, caller, Resource::CompaniesPackages, Action::Read) {
        Err(e) => Err(e),
        Ok(_) => crate::availability::get_available_packages(directory, catalog, country, size, weight),
    }
}

/// The delivery price for a caller who may read shipping rates.
pub fn get_delivery_price(
    roles: &Vec<UserRole>,
    caller: Option<i32>,
    directory: &CountryDirectory,
    catalog: &Catalog,
    company_package_id: i32,
    delivery_from: &String,
    delivery_to: &String,
    volume: u32,
    weight: u32,
) -> (r: Result<Price, Error>)
    ensures
        r == (if !admitted(roles@, caller, Resource::ShippingRates, Action::Read) {
            Err::<Price, Error>(refused(Resource::ShippingRates, Action::Read))
        } else {
            delivery_price(
                directory@,
                *catalog,
                company_package_id,
                delivery_from@,
                delivery_to@,
                volume,
                weight,
            )
        }),
{
    match gate(roles, caller, Resource::ShippingRates, Action::Read) {
        Err(e) => Err(e),
        Ok(_) => crate::resolver::get_delivery_price(
            directory,
            catalog,
            company_package_id,
            delivery_from,
            delivery_to,
            volume,
            weight,
        ),
    }
}

/// The first-match resolver for a caller who may read company packages.
pub fn find_available_shipping_for_user(
    roles: &Vec<UserRole>,
    caller: Option<i32>,
    directory: &CountryDirectory,
    catalog: &Catalog,
    base_product_id: i32,
    user_country: &String,
) -> (r: Result<AvailablePackage, Error>)
    ensures
        r == (if !admitted(roles@, caller, Resource::CompaniesPackages, Action::Read) {
            Err::<AvailablePackage, Error>(refused(Resource::CompaniesPackages, Action::Read))
        } else {
            first_admitted(directory@, *catalog, base_product_id, user_country@)
        }),
{
    match gate(roles, caller, Resource::CompaniesPackages, Action::Read) {
        Err(e) => Err(e),
        Ok(_) => crate::availability::find_available_shipping_for_user(
            directory,
            catalog,
            base_product_id,
            user_country,
        ),
    }
}

/// The deterministic resolver for a caller who may read company packages.
pub fn find_available_shipping_for_user_v2(
    roles: &Vec<UserRole>,
    caller: Option<i32>,
    directory: &CountryDirectory,
    catalog: &Catalog,
    key: BindingKey,
    delivery_from: &String,
    delivery_to: &String,
    volume: u32,
    weight: u32,
) -> (r: Result<AvailablePackage, Error>)
    ensures
        r == (if !admitted(roles@, caller, Resource::CompaniesPackages, Action::Read) {
            Err::<AvailablePackage, Error>(refused(Resource::CompaniesPackages, Action::Read))
        } else {
            unique_binding(directory@, *catalog, key, delivery_from@, delivery_to@, volume, weight)
        }),
{
    match gate(roles, caller, Resource::CompaniesPackages, Action::Read) {
        Err(e) => Err(e),
        Ok(_) => crate::availability::resolve_unique_binding(
            directory,
            catalog,
            key,
            delivery_from,
            delivery_to,
            volume,
            weight,
        ),
    }
}


/// The company package with the id, for a caller who may read company
/// packages; `NotFound` where there is none.
pub fn get_company_package(roles: &Vec<UserRole>, caller: Option<i32>, catalog: &Catalog, id: i32) -> (r:
    Result<CompanyPackage, Error>)
    ensures
        r == (if !admitted(roles@, caller, Resource::CompaniesPackages, Action::Read) {
            Err::<CompanyPackage, Error>(refused(Resource::CompaniesPackages, Action::Read))
        } else {
            match first_index(catalog.companies_packages@, company_package_with(id)) {
                Some(i) => Ok::<CompanyPackage, Error>(catalog.companies_packages@[i]),
                None => Err::<CompanyPackage, Error>(Error::NotFound),
            }
        }),
{
    match gate(roles, caller, Resource::CompaniesPackages, Action::Read) {
        Err(e) => Err(e),
        Ok(_) => match find_company_package(&catalog.companies_packages, id) {
            Some(i) => Ok(catalog.companies_packages[i].clone()),
            None => Err(Error::NotFound),
        },
    }
}

/// Why a company package cannot be added, if it cannot: `NotFound` where
/// the company or the package is not on record, `Validate` where the id is
/// taken.
pub open spec fn offering_refusal(catalog: Catalog, id: i32, company_id: i32, package_id: i32) -> Option<
    Error,
> {
    if first_index(catalog.companies@, company_with(company_id)) is None || first_index(
        catalog.packages@,
        package_with(package_id),
    ) is None {
        Some(Error::NotFound)
    } else if first_index(catalog.companies_packages@, company_package_with(id)) is Some {
        Some(Error::Validate)
    } else {
        None
    }
}

/// `cp` is the offering of the package by the company under the id: it is
/// named after both and priced in the company's currency.
pub open spec fn is_offering(
    catalog: Catalog,
    cp: CompanyPackage,
    id: i32,
    company_id: i32,
    package_id: i32,
) -> bool {
    let company = catalog.companies@[first_index(
        catalog.companies@,
        company_with(company_id),
    )->Some_0];
    let package = catalog.packages@[first_index(catalog.packages@, package_with(package_id))->Some_0];
    &&& cp.id == id
    &&& cp.company_id == company_id
    &&& cp.package_id == package_id
    &&& cp.name@ == company_package_name_spec(company.name@, package.name@)
    &&& cp.currency == company.currency
}

/// Everything but the company packages is as before.
pub open spec fn same_but_offerings(before: Catalog, after: Catalog) -> bool {
    &&& after.companies == before.companies
    &&& after.packages == before.packages
    &&& after.restrictions == before.restrictions
    &&& after.rates == before.rates
    &&& after.products == before.products
}

/// Adds a company's offering of a package under the id given, for a caller
/// who may create company packages. A denied or refused request leaves the
/// catalog as it was.
pub fn create_company_package(
    roles: &Vec<UserRole>,
    caller: Option<i32>,
    catalog: &mut Catalog,
    id: i32,
    company_id: i32,
    package_id: i32,
) -> (r: Result<CompanyPackage, Error>)
    ensures
        well_formed_catalog(*old(catalog)) ==> well_formed_catalog(*final(catalog)),
        if !admitted(roles@, caller, Resource::CompaniesPackages, Action::Create) {
            r == Err::<CompanyPackage, Error>(refused(Resource::CompaniesPackages, Action::Create))
                && *final(catalog) == *old(catalog)
        } else {
            match offering_refusal(*old(catalog), id, company_id, package_id) {
                Some(e) => r == Err::<CompanyPackage, Error>(e) && *final(catalog) == *old(catalog),
                None => {
                    &&& r matches Ok(cp)
                    &&& is_offering(*old(catalog), cp, id, company_id, package_id)
                    &&& final(catalog).companies_packages@ == old(catalog).companies_packages@.push(cp)
                    &&& same_but_offerings(*old(catalog), *final(catalog))
                },
            }
        },
{
    match gate(roles, caller, Resource::CompaniesPackages, Action::Create) {
        Err(e) => {
            return Err(e);
        },
        Ok(_) => {},
    }
    let company = match find_company(&catalog.companies, company_id) {
        Some(c) => c,
        None => {
            return Err(Error::NotFound);
        },
    };
    let package = match find_package(&catalog.packages, package_id) {
        Some(p) => p,
        None => {
            return Err(Error::NotFound);
        },
    };
    if find_company_package(&catalog.companies_packages, id).is_some() {
        return Err(Error::Validate);
    }
    let cp = CompanyPackage {
        id,
        company_id,
        package_id,
        name: get_company_package_name(
            catalog.companies[company].name.as_str(),
            catalog.packages[package].name.as_str(),
        ),
        currency: catalog.companies[company].currency.clone(),
    };
    let copy = cp.clone();
    let ghost before = catalog.companies_packages@;
    catalog.companies_packages.push(cp);
    proof {
        lemma_first_index(before, company_package_with(id));
        let after = catalog.companies_packages@;
        if keys_distinct(before) {
            assert forall|a: int, b: int| 0 <= a < b < after.len() implies (#[trigger] after[a]).key_spec()
                != (#[trigger] after[b]).key_spec() by {
                assert(after[a] == before[a]);
                if b < before.len() {
                    assert(after[b] == before[b]);
                } else {
                    assert(!company_package_with(id)(before[a]));
                }
            }
        }
    }
    Ok(copy)
}

/// The bindings to any other company package.
pub open spec fn not_bound_to(company_package_id: i32) -> spec_fn(Products) -> bool {
    |b: Products| b.company_package_id != company_package_id
}

/// Removes the company package with the id and the bindings of products to
/// it, for a caller who may delete company packages, and answers with the
/// company package removed. A denied request, or one for an id that is not
/// on record, leaves the catalog as it was.
pub fn delete_company_package(roles: &Vec<UserRole>, caller: Option<i32>, catalog: &mut Catalog, id: i32) -> (r:
    Result<CompanyPackage, Error>)
    ensures
        well_formed_catalog(*old(catalog)) ==> well_formed_catalog(*final(catalog)),
        if !admitted(roles@, caller, Resource::CompaniesPackages, Action::Delete) {
            r == Err::<CompanyPackage, Error>(refused(Resource::CompaniesPackages, Action::Delete))
                && *final(catalog) == *old(catalog)
        } else {
            match first_index(old(catalog).companies_packages@, company_package_with(id)) {
                None => r == Err::<CompanyPackage, Error>(Error::NotFound) && *final(catalog) == *old(catalog),
                Some(i) => {
                    &&& r == Ok::<CompanyPackage, Error>(old(catalog).companies_packages@[i])
                    &&& final(catalog).companies_packages@ == old(catalog).companies_packages@.remove(i)
                    &&& final(catalog).products@ == old(catalog).products@.filter(not_bound_to(id))
                    &&& final(catalog).companies == old(catalog).companies
                    &&& final(catalog).packages == old(catalog).packages
                    &&& final(catalog).restrictions == old(catalog).restrictions
                    &&& final(catalog).rates == old(catalog).rates
                },
            }
        },
{
    match gate(roles, caller, Resource::CompaniesPackages, Action::Delete) {
        Err(e) => {
            return Err(e);
        },
        Ok(_) => {},
    }
    let i = match find_company_package(&catalog.companies_packages, id) {
        Some(i) => i,
        None => {
            return Err(Error::NotFound);
        },
    };
    let removed = catalog.companies_packages.remove(i);
    let ghost p = not_bound_to(id);
    let ghost before = catalog.products@;
    let mut kept: Vec<Products> = Vec::new();
    let mut k: usize = 0;
    assert(before.take(0).filter(p) =~= Seq::<Products>::empty()) by {
        before.take(0).lemma_filter_len(p);
    }
    while k < catalog.products.len()
        invariant
            0 <= k <= catalog.products.len(),
            before == catalog.products@,
            p == not_bound_to(id),
            kept@ == before.take(k as int).filter(p),
        decreases catalog.products.len() - k,
    {
        proof {
            before.lemma_take_succ_push(k as int);
            before.take(k as int).lemma_filter_push(before[k as int], p);
        }
        if catalog.products[k].company_package_id != id {
            kept.push(catalog.products[k]);
        }
        k += 1;
    }
    assert(before.take(k as int) =~= before);
    catalog.products = kept;
    Ok(removed)
}


/// The tiers of a lane, for a caller who may read shipping rates;
/// `NotFound` where the lane has no rate table.
pub fn get_shipping_rates(
    roles: &Vec<UserRole>,
    caller: Option<i32>,
    catalog: &Catalog,
    company_package_id: i32,
    delivery_from: &String,
) -> (r: Result<Vec<Tier>, Error>)
    ensures
        if !admitted(roles@, caller, Resource::ShippingRates, Action::Read) {
            r is Err && r->Err_0 == refused(Resource::ShippingRates, Action::Read)
        } else {
            match lane_table(*catalog, company_package_id, delivery_from@) {
                Some(table) => r matches Ok(tiers) && tiers@ == table,
                None => r is Err && r->Err_0 == Error::NotFound,
            }
        },
{
    match gate(roles, caller, Resource::ShippingRates, Action::Read) {
        Err(e) => {
            return Err(e);
        },
        Ok(_) => {},
    }
    match find_rate(&catalog.rates, company_package_id, delivery_from) {
        None => Err(Error::NotFound),
        Some(i) => {
            let src = &catalog.rates[i].tiers;
            if src.len() == 0 {
                return Err(Error::NotFound);
            }
            let mut tiers: Vec<Tier> = Vec::new();
            let mut k: usize = 0;
            while k < src.len()
                invariant
                    0 <= k <= src.len(),
                    tiers@ == src@.take(k as int),
                decreases src.len() - k,
            {
                tiers.push(src[k]);
                assert(src@.take(k + 1) =~= src@.take(k as int).push(src@[k as int]));
                k += 1;
            }
            assert(src@.take(src@.len() as int) =~= src@);
            Ok(tiers)
        },
    }
}

/// Why a rate table cannot be stored for a lane, if it cannot: `NotFound`
/// where the company package is not on record, `Validate` where the
/// breakpoints of the table decrease somewhere.
pub open spec fn rates_refusal(catalog: Catalog, company_package_id: i32, tiers: Seq<Tier>) -> Option<
    Error,
> {
    if first_index(catalog.companies_packages@, company_package_with(company_package_id)) is None {
        Some(Error::NotFound)
    } else if !tiers_ascending(tiers) {
        Some(Error::Validate)
    } else {
        None
    }
}

/// Everything but the rates is as before.
pub open spec fn same_but_rates(before: Catalog, after: Catalog) -> bool {
    &&& after.companies == before.companies
    &&& after.packages == before.packages
    &&& after.companies_packages == before.companies_packages
    &&& after.restrictions == before.restrictions
    &&& after.products == before.products
}

/// The rate entries after the table of a lane was replaced. A table with
/// tiers takes the place of the lane's entry, or is entered where the lane
/// had none; a table without tiers removes the lane's entry, so that a lane
/// without rates is always one without an entry.
pub open spec fn rates_replaced(rates: Seq<RateEntry>, entry: RateEntry) -> Seq<RateEntry> {
    match first_index(rates, rate_of(entry.company_package_id, entry.from@)) {
        Some(i) => if entry.tiers@.len() > 0 {
            rates.update(i, entry)
        } else {
            rates.remove(i)
        },
        None => if entry.tiers@.len() > 0 {
            rates.push(entry)
        } else {
            rates
        },
    }
}

/// Stores the rate table of a lane in place of the one on record, for a
/// caller who may update shipping rates. The table is taken as it is given:
/// it must ascend. A denied or refused request leaves the catalog as it
/// was. A well-formed catalog stays well formed.
pub fn replace_shipping_rates(
    roles: &Vec<UserRole>,
    caller: Option<i32>,
    catalog: &mut Catalog,
    company_package_id: i32,
    delivery_from: String,
    tiers: Vec<Tier>,
) -> (r: Result<(), Error>)
    ensures
        well_formed_catalog(*old(catalog)) ==> well_formed_catalog(*final(catalog)),
        if !admitted(roles@, caller, Resource::ShippingRates, Action::Update) {
            r == Err::<(), Error>(refused(Resource::ShippingRates, Action::Update)) && *final(catalog)
                == *old(catalog)
        } else {
            match rates_refusal(*old(catalog), company_package_id, tiers@) {
                Some(e) => r == Err::<(), Error>(e) && *final(catalog) == *old(catalog),
                None => {
                    &&& r == Ok::<(), Error>(())
                    &&& same_but_rates(*old(catalog), *final(catalog))
                    &&& final(catalog).rates@ == rates_replaced(
                        old(catalog).rates@,
                        RateEntry { company_package_id, from: delivery_from, tiers },
                    )
                },
            }
        },
{
    match gate(roles, caller, Resource::ShippingRates, Action::Update) {
        Err(e) => {
            return Err(e);
        },
        Ok(_) => {},
    }
    if find_company_package(&catalog.companies_packages, company_package_id).is_none() {
        return Err(Error::NotFound);
    }
    if !is_ascending(&tiers) {
        return Err(Error::Validate);
    }
    let found = find_rate(&catalog.rates, company_package_id, &delivery_from);
    let holds_tiers = tiers.len() > 0;
    let ghost before = catalog.rates@;
    let entry = RateEntry { company_package_id, from: delivery_from, tiers };
    match found {
        Some(i) => {
            if holds_tiers {
                catalog.rates.set(i, entry);
            } else {
                catalog.rates.remove(i);
                assert forall|k: int| 0 <= k < catalog.rates@.len() implies #[trigger] catalog.rates@[k]
                    == before[if k < i {
                    k
                } else {
                    k + 1
                }] by {}
            }
        },
        None => {
            if holds_tiers {
                catalog.rates.push(entry);
            }
        },
    }
    Ok(())
}

/// The offerings of a package by a company.
pub open spec fn offered_by(company_id: i32, package_id: i32) -> spec_fn(CompanyPackage) -> bool {
    |cp: CompanyPackage| cp.company_id == company_id && cp.package_id == package_id
}

/// The id of the first offering of the package by the company; `NotFound`
/// where the company does not offer the package.
pub fn company_package_of(catalog: &Catalog, company_id: i32, package_id: i32) -> (r: Result<i32, Error>)
    ensures
        r == match first_index(catalog.companies_packages@, offered_by(company_id, package_id)) {
            Some(i) => Ok::<i32, Error>(catalog.companies_packages@[i].id),
            None => Err::<i32, Error>(Error::NotFound),
        },
{
    let test = |cp: &CompanyPackage| -> (hit: bool)
        ensures
            hit == (cp.company_id == company_id && cp.package_id == package_id),
    {
        cp.company_id == company_id && cp.package_id == package_id
    };
    let found = position_where(&catalog.companies_packages, Ghost(offered_by(company_id, package_id)), test);
    match found {
        Some(i) => Ok(catalog.companies_packages[i].id),
        None => Err(Error::NotFound),
    }
}


/// The first binding of the base product to the company package, for a
/// caller who may read company packages; `NotFound` where there is none.
pub fn get_available_package_for_user(
    roles: &Vec<UserRole>,
    caller: Option<i32>,
    catalog: &Catalog,
    base_product_id: i32,
    company_package_id: i32,
) -> (r: Result<Products, Error>)
    ensures
        r == (if !admitted(roles@, caller, Resource::CompaniesPackages, Action::Read) {
            Err::<Products, Error>(refused(Resource::CompaniesPackages, Action::Read))
        } else {
            match first_index(catalog.products@, bound_to(base_product_id, company_package_id)) {
                Some(i) => Ok::<Products, Error>(catalog.products@[i]),
                None => Err::<Products, Error>(Error::NotFound),
            }
        }),
{
    match gate(roles, caller, Resource::CompaniesPackages, Action::Read) {
        Err(e) => Err(e),
        Ok(_) => crate::availability::get_available_package_for_user(
            catalog,
            base_product_id,
            company_package_id,
        ),
    }
}

/// The binding known by its id, for a caller who may read company
/// packages; `NotFound` where there is none.
pub fn get_available_package_for_user_by_shipping_id(
    roles: &Vec<UserRole>,
    caller: Option<i32>,
    catalog: &Catalog,
    shipping_id: i32,
) -> (r: Result<Products, Error>)
    ensures
        r == (if !admitted(roles@, caller, Resource::CompaniesPackages, Action::Read) {
            Err::<Products, Error>(refused(Resource::CompaniesPackages, Action::Read))
        } else {
            match first_index(catalog.products@, with_shipping_id(shipping_id)) {
                Some(i) => Ok::<Products, Error>(catalog.products@[i]),
                None => Err::<Products, Error>(Error::NotFound),
            }
        }),
{
    match gate(roles, caller, Resource::CompaniesPackages, Action::Read) {
        Err(e) => Err(e),
        Ok(_) => crate::availability::get_available_package_for_user_by_shipping_id(
            catalog,
            shipping_id,
        ),
    }
}


/// The entity a lookup gave, or `NotFound` where it gave none.
pub fn found<T>(row: Option<T>) -> (r: Result<T, Error>)
    ensures
        r == match row {
            Some(entity) => Ok::<T, Error>(entity),
            None => Err::<T, Error>(Error::NotFound),
        },
{
    match row {
        Some(entity) => Ok(entity),
        None => Err(Error::NotFound),
    }
}

/// The caller may perform the action on the entity.
pub open spec fn admitted_to<E: Ownership>(
    roles: Seq<UserRole>,
    caller: Option<i32>,
    resource: Resource,
    action: Action,
    entity: E,
) -> bool {
    allowed(roles, caller, resource, action, Some(entity.owner_key_spec()))
}

/// The caller may perform the action on the resource as a whole and on
/// every one of the entities.
pub open spec fn admitted_to_all<E: Ownership>(
    roles: Seq<UserRole>,
    caller: Option<i32>,
    resource: Resource,
    action: Action,
    entities: Seq<E>,
) -> bool {
    &&& admitted(roles, caller, resource, action)
    &&& forall|i: int|
        0 <= i < entities.len() ==> admitted_to(roles, caller, resource, action, #[trigger] entities[i])
}

/// The access check on one entity that has been located.
pub fn gate_entity<E: Ownership>(
    roles: &Vec<UserRole>,
    caller: Option<i32>,
    resource: Resource,
    action: Action,
    entity: &E,
) -> (r: Result<(), Error>)
    ensures
        r == (if admitted_to(roles@, caller, resource, action, *entity) {
            Ok::<(), Error>(())
        } else {
            Err::<(), Error>(refused(resource, action))
        }),
{
    match authorize(roles, caller, resource, action, Some(entity)) {
        Ok(_) => Ok(()),
        Err(e) => Err(Error::Forbidden(e)),
    }
}

/// The access check on a list of entities: on the resource as a whole
/// first, whether or not the list holds anything, then on each entity.
pub fn gate_entities<E: Ownership>(
    roles: &Vec<UserRole>,
    caller: Option<i32>,
    resource: Resource,
    action: Action,
    entities: &Vec<E>,
) -> (r: Result<(), Error>)
    ensures
        r == (if admitted_to_all(roles@, caller, resource, action, entities@) {
            Ok::<(), Error>(())
        } else {
            Err::<(), Error>(refused(resource, action))
        }),
{
    match gate(roles, caller, resource, action) {
        Err(e) => {
            return Err(e);
        },
        Ok(_) => {},
    }
    let mut i: usize = 0;
    while i < entities.len()
        invariant
            0 <= i <= entities.len(),
            admitted(roles@, caller, resource, action),
            forall|j: int|
                0 <= j < i ==> admitted_to(roles@, caller, resource, action, #[trigger] entities@[j]),
        decreases entities.len() - i,
    {
        match gate_entity(roles, caller, resource, action, &entities[i]) {
            Err(e) => {
                assert(!admitted_to(roles@, caller, resource, action, entities@[i as int]));
                return Err(e);
            },
            Ok(_) => {},
        }
        i += 1;
    }
    Ok(())
}

} // verus!
