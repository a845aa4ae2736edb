//! Which bindings and company packages are available for a shipment: the
//! first-match resolver, the deterministic resolver, and package discovery.

use vstd::prelude::*;
use crate::catalog::{
    admits, admits_destination, company_package_with, company_ships_from, eligible,
    find_company_package, fits, is_eligible, ships_from, within_ceilings,
};
use crate::countries::{Country, CountryDirectory, has_alpha3};
use crate::errors::Error;
use crate::models::{AvailablePackage, Catalog, CompanyPackage, Price, Products};
use crate::catalog::well_formed_catalog;
use crate::ordering::{
    lemma_filter_keeps_keys_distinct, lemma_sorted_permutation_is_strict, sort_by_key,
    sorted_by_key, strictly_sorted_by_key,
};
use crate::resolver::{
    check_country, check_shipment, country_refusal, delivery_price, lane_price, price_lane,
    shipment_refusal, stored_code,
};
use crate::search::{
    any, first_index, lemma_filter_single, lemma_filter_two, position_where,
};

verus! {

/// What a resolver is asked about: every binding of a base product, or one
/// binding known by its id.
#[derive(Clone, Copy, Debug, PartialEq, Eq, Structural)]
pub enum BindingKey {
    BaseProduct(i32),
    Shipping(i32),
}

/// The binding is one the key asks about.
pub open spec fn key_selects(key: BindingKey, binding: Products) -> bool {
    match key {
        BindingKey::BaseProduct(id) => binding.base_product_id == id,
        BindingKey::Shipping(id) => binding.id == id,
    }
}

/// The binding's company package is on record and eligible for the shipment.
pub open spec fn binding_eligible(
    catalog: Catalog,
    binding: Products,
    from: Seq<char>,
    to: Seq<char>,
    volume: u32,
    weight: u32,
) -> bool {
    match first_index(
        catalog.companies_packages@,
        company_package_with(binding.company_package_id),
    ) {
        Some(i) => eligible(catalog, catalog.companies_packages@[i], from, to, volume, weight),
        None => false,
    }
}

/// The bindings the deterministic resolver counts: asked about and eligible.
pub open spec fn candidate(
    catalog: Catalog,
    key: BindingKey,
    from: Seq<char>,
    to: Seq<char>,
    volume: u32,
    weight: u32,
) -> spec_fn(Products) -> bool {
    |b: Products| key_selects(key, b) && binding_eligible(catalog, b, from, to, volume, weight)
}

/// The answer for a binding, a price and the destination matched.
pub open spec fn available(binding: Products, price: Option<Price>, to: String) -> AvailablePackage {
    AvailablePackage {
        shipping_id: binding.id,
        base_product_id: binding.base_product_id,
        company_package_id: binding.company_package_id,
        price,
        deliveries_to: to,
    }
}

/// What the deterministic resolver answers. After the shipment checks,
/// with origin and destination as the directory holds them: `NotFound`
/// where no binding is a candidate, `AmbiguousMatch` where more than one
/// is, and otherwise the one candidate with the price of its lane, or the
/// error that pricing the lane gives.
pub open spec fn unique_binding(
    directory: Seq<Country>,
    catalog: Catalog,
    key: BindingKey,
    from: Seq<char>,
    to: Seq<char>,
    volume: u32,
    weight: u32,
) -> Result<AvailablePackage, Error> {
    match shipment_refusal(directory, from, to, volume, weight) {
        Some(e) => Err(e),
        None => {
            let origin = stored_code(directory, from);
            let destination = stored_code(directory, to);
            let found = catalog.products@.filter(
                candidate(catalog, key, origin@, destination@, volume, weight),
            );
            if found.len() == 0 {
                Err(Error::NotFound)
            } else if found.len() > 1 {
                Err(Error::AmbiguousMatch)
            } else {
                match lane_price(
                    catalog,
                    found[0].company_package_id,
                    origin@,
                    destination@,
                    volume,
                    weight,
                ) {
                    Ok(price) => Ok(available(found[0], Some(price), destination)),
                    Err(e) => Err(e),
                }
            }
        },
    }
}

/// Whether the binding is a candidate for the shipment.
pub fn is_candidate(
    catalog: &Catalog,
    key: BindingKey,
    binding: &Products,
    from: &String,
    to: &String,
    volume: u32,
    weight: u32,
) -> (ok: bool)
    ensures
        ok == candidate(*catalog, key, from@, to@, volume, weight)(*binding),
{
    let selected = match key {
        BindingKey::BaseProduct(id) => binding.base_product_id == id,
        BindingKey::Shipping(id) => binding.id == id,
    };
    if !selected {
        return false;
    }
    match find_company_package(&catalog.companies_packages, binding.company_package_id) {
        Some(i) => is_eligible(catalog, &catalog.companies_packages[i], from, to, volume, weight),
        None => false,
    }
}

/// The deterministic resolver for either kind of key.
pub fn resolve_unique_binding(
    directory: &CountryDirectory,
    catalog: &Catalog,
    key: BindingKey,
    delivery_from: &String,
    delivery_to: &String,
    volume: u32,
    weight: u32,
) -> (r: Result<AvailablePackage, Error>)
    ensures
        r == unique_binding(directory@, *catalog, key, delivery_from@, delivery_to@, volume, weight),
{
    let (origin, destination) = match check_shipment(
        directory,
        delivery_from,
        delivery_to,
        volume,
        weight,
    ) {
        Err(e) => {
            return Err(e);
        },
        Ok(codes) => codes,
    };
    let ghost p = candidate(*catalog, key, origin@, destination@, volume, weight);
    let mut count: usize = 0;
    let mut first: Option<Products> = None;
    let mut i: usize = 0;
    assert(catalog.products@.take(0).filter(p) =~= Seq::<Products>::empty()) by {
        catalog.products@.take(0).lemma_filter_len(p);
    }
    while i < catalog.products.len()
        invariant
            0 <= i <= catalog.products.len(),
            p == candidate(*catalog, key, origin@, destination@, volume, weight),
            count == catalog.products@.take(i as int).filter(p).len(),
            count <= i,
            first == (if count > 0 {
                Some(catalog.products@.take(i as int).filter(p)[0])
            } else {
                None
            }),
        decreases catalog.products.len() - i,
    {
        let binding = catalog.products[i];
        proof {
            catalog.products@.lemma_take_succ_push(i as int);
            catalog.products@.take(i as int).lemma_filter_push(catalog.products@[i as int], p);
        }
        if is_candidate(catalog, key, &binding, &origin, &destination, volume, weight) {
            if count == 0 {
                first = Some(binding);
            }
            count += 1;
        }
        i += 1;
    }
    assert(catalog.products@.take(i as int) =~= catalog.products@);
    match first {
        None => Err(Error::NotFound),
        Some(binding) => {
            if count > 1 {
                Err(Error::AmbiguousMatch)
            } else {
                match price_lane(
                    catalog,
                    binding.company_package_id,
                    &origin,
                    &destination,
                    volume,
                    weight,
                ) {
                    Ok(price) => Ok(
                        AvailablePackage {
                            shipping_id: binding.id,
                            base_product_id: binding.base_product_id,
                            company_package_id: binding.company_package_id,
                            price: Some(price),
                            deliveries_to: destination,
                        },
                    ),
                    Err(e) => Err(e),
                }
            }
        },
    }
}

/// The deterministic resolver over the bindings of a base product: the one
/// binding that is eligible for the shipment, with its price.
pub fn find_available_shipping_for_user_v2(
    directory: &CountryDirectory,
    catalog: &Catalog,
    base_product_id: i32,
    delivery_from: &String,
    delivery_to: &String,
    volume: u32,
    weight: u32,
) -> (r: Result<AvailablePackage, Error>)
    ensures
        r == unique_binding(
            directory@,
            *catalog,
            BindingKey::BaseProduct(base_product_id),
            delivery_from@,
            delivery_to@,
            volume,
            weight,
        ),
{
    resolve_unique_binding(
        directory,
        catalog,
        BindingKey::BaseProduct(base_product_id),
        delivery_from,
        delivery_to,
        volume,
        weight,
    )
}

/// The deterministic resolver for one binding known by its id: the binding,
/// priced again, if it is eligible for the shipment.
pub fn get_available_package_for_user_by_shipping_id_v2(
    directory: &CountryDirectory,
    catalog: &Catalog,
    shipping_id: i32,
    delivery_from: &String,
    delivery_to: &String,
    volume: u32,
    weight: u32,
) -> (r: Result<AvailablePackage, Error>)
    ensures
        r == unique_binding(
            directory@,
            *catalog,
            BindingKey::Shipping(shipping_id),
            delivery_from@,
            delivery_to@,
            volume,
            weight,
        ),
{
    resolve_unique_binding(
        directory,
        catalog,
        BindingKey::Shipping(shipping_id),
        delivery_from,
        delivery_to,
        volume,
        weight,
    )
}


/// The bindings the first-match resolver accepts: of the base product, with
/// a company package whose restriction admits the country.
pub open spec fn admitted_binding(catalog: Catalog, base_product_id: i32, country: Seq<char>) -> spec_fn(
    Products,
) -> bool {
    |b: Products| b.base_product_id == base_product_id && admits(catalog, b.company_package_id, country)
}

/// The price a binding carries, in the currency its company package
/// declares; none where the binding carries none or the company package is
/// not on record.
pub open spec fn carried_price(catalog: Catalog, binding: Products) -> Option<Price> {
    match (
        binding.price,
        first_index(catalog.companies_packages@, company_package_with(binding.company_package_id)),
    ) {
        (Some(amount), Some(i)) => Some(
            Price { amount, currency: catalog.companies_packages@[i].currency },
        ),
        _ => None,
    }
}

/// Reads the price a binding carries.
pub fn price_carried(catalog: &Catalog, binding: &Products) -> (price: Option<Price>)
    ensures
        price == carried_price(*catalog, *binding),
{
    match binding.price {
        None => {
            None
        },
        Some(amount) => match find_company_package(
            &catalog.companies_packages,
            binding.company_package_id,
        ) {
            Some(i) => Some(
                Price { amount, currency: catalog.companies_packages[i].currency.clone() },
            ),
            None => None,
        },
    }
}

/// What the first-match resolver answers: after the check of the country,
/// taken as the directory holds it, the first admitted binding in the order
/// the bindings are stored, with the price the binding carries; `NotFound`
/// where there is none.
pub open spec fn first_admitted(
    directory: Seq<Country>,
    catalog: Catalog,
    base_product_id: i32,
    country: Seq<char>,
) -> Result<AvailablePackage, Error> {
    match country_refusal(directory, country) {
        Some(e) => Err(e),
        None => {
            let destination = stored_code(directory, country);
            match first_index(
                catalog.products@,
                admitted_binding(catalog, base_product_id, destination@),
            ) {
                Some(i) => Ok(
                    available(
                        catalog.products@[i],
                        carried_price(catalog, catalog.products@[i]),
                        destination,
                    ),
                ),
                None => Err(Error::NotFound),
            }
        },
    }
}

/// The first-match resolver. It takes the bindings of the product in the
/// order they are stored and answers with the first whose restriction
/// admits the user's country. Where several bindings qualify the answer
/// depends on that order alone.
pub fn find_available_shipping_for_user(
    directory: &CountryDirectory,
    catalog: &Catalog,
    base_product_id: i32,
    user_country: &String,
) -> (r: Result<AvailablePackage, Error>)
    ensures
        r == first_admitted(directory@, *catalog, base_product_id, user_country@),
{
    let destination = match check_country(directory, user_country) {
        Err(e) => {
            return Err(e);
        },
        Ok(code) => code,
    };
    let test = |b: &Products| -> (hit: bool)
        ensures
            hit == (b.base_product_id == base_product_id && admits(
                *catalog,
                b.company_package_id,
                destination@,
            )),
    {
        b.base_product_id == base_product_id && admits_destination( catalog, b.company_package_id, &destination, )
    };
    let found = position_where(&catalog.products, Ghost(admitted_binding(*catalog, base_product_id, destination@)), test);
    match found {
        Some(i) => {
            let binding = catalog.products[i];
            Ok(
                AvailablePackage {
                    shipping_id: binding.id,
                    base_product_id: binding.base_product_id,
                    company_package_id: binding.company_package_id,
                    price: price_carried(catalog, &binding),
                    deliveries_to: destination,
                },
            )
        },
        None => Err(Error::NotFound),
    }
}

/// The bindings of a base product to a company package.
pub open spec fn bound_to(base_product_id: i32, company_package_id: i32) -> spec_fn(Products) -> bool {
    |b: Products| b.base_product_id == base_product_id && b.company_package_id == company_package_id
}

/// The first binding of the base product to the company package, in the
/// order the bindings are stored; `NotFound` where there is none. The pair
/// does not identify a binding: a second one to the same company package is
/// never returned.
pub fn get_available_package_for_user(
    catalog: &Catalog,
    base_product_id: i32,
    company_package_id: i32,
) -> (r: Result<Products, Error>)
    ensures
        r == match first_index(catalog.products@, bound_to(base_product_id, company_package_id)) {
            Some(i) => Ok::<Products, Error>(catalog.products@[i]),
            None => Err::<Products, Error>(Error::NotFound),
        },
{
    let test = |b: &Products| -> (hit: bool)
        ensures
            hit == (b.base_product_id == base_product_id && b.company_package_id == company_package_id),
    {
        b.base_product_id == base_product_id && b.company_package_id == company_package_id
    };
    let found = position_where(&catalog.products, Ghost(bound_to(base_product_id, company_package_id)), test);
    match found {
        Some(i) => Ok(catalog.products[i]),
        None => Err(Error::NotFound),
    }
}

/// The company packages that could carry a parcel out of the origin: the
/// company ships from there and the parcel is within the ceilings. The
/// destination plays no part.
pub open spec fn can_carry_from(catalog: Catalog, origin: Seq<char>, size: u32, weight: u32) -> spec_fn(
    CompanyPackage,
) -> bool {
    |cp: CompanyPackage| ships_from(catalog, cp, origin) && fits(catalog, cp, size, weight)
}

/// Why a discovery request is refused, if it is: a dimension that is not
/// positive gives `Validate`, and the origin is checked as any country code.
pub open spec fn discovery_refusal(
    directory: Seq<Country>,
    origin: Seq<char>,
    size: u32,
    weight: u32,
) -> Option<Error> {
    if size == 0 || weight == 0 {
        Some(Error::Validate)
    } else {
        country_refusal(directory, origin)
    }
}

/// Package discovery: every company package that could carry the parcel out
/// of the origin country, taken as the directory holds it, ascending by id,
/// without prices.
pub fn get_available_packages(
    directory: &CountryDirectory,
    catalog: &Catalog,
    origin_country: &String,
    size: u32,
    weight: u32,
) -> (r: Result<Vec<CompanyPackage>, Error>)
    ensures
        match discovery_refusal(directory@, origin_country@, size, weight) {
            Some(e) => r == Err::<Vec<CompanyPackage>, Error>(e),
            None => r matches Ok(found) && sorted_by_key(found@) && found@.to_multiset()
                == catalog.companies_packages@.filter(
                can_carry_from(*catalog, stored_code(directory@, origin_country@)@, size, weight),
            ).to_multiset(),
        },
{
    if size == 0 || weight == 0 {
        return Err(Error::Validate);
    }
    let origin = match check_country(directory, origin_country) {
        Err(e) => {
            return Err(e);
        },
        Ok(code) => code,
    };
    let ghost p = can_carry_from(*catalog, origin@, size, weight);
    let mut found: Vec<CompanyPackage> = Vec::new();
    let mut i: usize = 0;
    assert(catalog.companies_packages@.take(0).filter(p) =~= Seq::<CompanyPackage>::empty()) by {
        catalog.companies_packages@.take(0).lemma_filter_len(p);
    }
    while i < catalog.companies_packages.len()
        invariant
            0 <= i <= catalog.companies_packages.len(),
            p == can_carry_from(*catalog, origin@, size, weight),
            found@ == catalog.companies_packages@.take(i as int).filter(p),
        decreases catalog.companies_packages.len() - i,
    {
        let cp = &catalog.companies_packages[i];
        proof {
            catalog.companies_packages@.lemma_take_succ_push(i as int);
            catalog.companies_packages@.take(i as int).lemma_filter_push(
                catalog.companies_packages@[i as int],
                p,
            );
        }
        if company_ships_from(catalog, cp, &origin) && within_ceilings(
            catalog,
            cp,
            size,
            weight,
        ) {
            found.push(cp.clone());
        }
        i += 1;
    }
    assert(catalog.companies_packages@.take(i as int) =~= catalog.companies_packages@);
    Ok(sort_by_key(found))
}


/// Where exactly one binding is a candidate for a shipment, the
/// deterministic resolver answers with that binding, and the price is what
/// `get_delivery_price` gives for the binding's company package on the same
/// origin, destination, volume and weight; where that fails, the resolver
/// fails in the same way.
pub proof fn lemma_single_candidate_is_answer(
    directory: Seq<Country>,
    catalog: Catalog,
    key: BindingKey,
    from: Seq<char>,
    to: Seq<char>,
    volume: u32,
    weight: u32,
    k: int,
)
    requires
        0 <= k < catalog.products@.len(),
        candidate(
            catalog,
            key,
            stored_code(directory, from)@,
            stored_code(directory, to)@,
            volume,
            weight,
        )(catalog.products@[k]),
        forall|j: int|
            0 <= j < catalog.products@.len() && j != k ==> !candidate(
                catalog,
                key,
                stored_code(directory, from)@,
                stored_code(directory, to)@,
                volume,
                weight,
            )(#[trigger] catalog.products@[j]),
    ensures
        unique_binding(directory, catalog, key, from, to, volume, weight) == match delivery_price(
            directory,
            catalog,
            catalog.products@[k].company_package_id,
            from,
            to,
            volume,
            weight,
        ) {
            Ok(price) => Ok::<AvailablePackage, Error>(
                available(catalog.products@[k], Some(price), stored_code(directory, to)),
            ),
            Err(e) => Err::<AvailablePackage, Error>(e),
        },
{
    lemma_filter_single(
        catalog.products@,
        candidate(
            catalog,
            key,
            stored_code(directory, from)@,
            stored_code(directory, to)@,
            volume,
            weight,
        ),
        k,
    );
}

/// Where two bindings are candidates for a shipment that passes the
/// shipment checks, the deterministic resolver fails with `AmbiguousMatch`:
/// it never picks one.
pub proof fn lemma_two_candidates_are_ambiguous(
    directory: Seq<Country>,
    catalog: Catalog,
    key: BindingKey,
    from: Seq<char>,
    to: Seq<char>,
    volume: u32,
    weight: u32,
    i: int,
    j: int,
)
    requires
        shipment_refusal(directory, from, to, volume, weight) is None,
        0 <= i < j < catalog.products@.len(),
        candidate(
            catalog,
            key,
            stored_code(directory, from)@,
            stored_code(directory, to)@,
            volume,
            weight,
        )(catalog.products@[i]),
        candidate(
            catalog,
            key,
            stored_code(directory, from)@,
            stored_code(directory, to)@,
            volume,
            weight,
        )(catalog.products@[j]),
    ensures
        unique_binding(directory, catalog, key, from, to, volume, weight) == Err::<
            AvailablePackage,
            Error,
        >(Error::AmbiguousMatch),
{
    lemma_filter_two(
        catalog.products@,
        candidate(
            catalog,
            key,
            stored_code(directory, from)@,
            stored_code(directory, to)@,
            volume,
            weight,
        ),
        i,
        j,
    );
}

/// The binding with an id.
pub open spec fn with_shipping_id(shipping_id: i32) -> spec_fn(Products) -> bool {
    |b: Products| b.id == shipping_id
}

/// The binding known by its id, as it is stored; `NotFound` where there is
/// none.
pub fn get_available_package_for_user_by_shipping_id(catalog: &Catalog, shipping_id: i32) -> (r: Result<
    Products,
    Error,
>)
    ensures
        r == match first_index(catalog.products@, with_shipping_id(shipping_id)) {
            Some(i) => Ok::<Products, Error>(catalog.products@[i]),
            None => Err::<Products, Error>(Error::NotFound),
        },
{
    let test = |b: &Products| -> (hit: bool)
        ensures
            hit == (b.id == shipping_id),
    {
        b.id == shipping_id
    };
    let found = position_where(&catalog.products, Ghost(with_shipping_id(shipping_id)), test);
    match found {
        Some(i) => Ok(catalog.products[i]),
        None => Err(Error::NotFound),
    }
}


/// In a well-formed catalog the answer of package discovery is strictly
/// ascending by id: no company package is listed twice.
pub proof fn lemma_discovery_is_strictly_ascending(
    catalog: Catalog,
    origin: Seq<char>,
    size: u32,
    weight: u32,
    found: Seq<CompanyPackage>,
)
    requires
        well_formed_catalog(catalog),
        sorted_by_key(found),
        found.to_multiset() == catalog.companies_packages@.filter(
            can_carry_from(catalog, origin, size, weight),
        ).to_multiset(),
    ensures
        strictly_sorted_by_key(found),
{
    let p = can_carry_from(catalog, origin, size, weight);
    lemma_filter_keeps_keys_distinct(catalog.companies_packages@, p);
    lemma_sorted_permutation_is_strict(catalog.companies_packages@.filter(p), found);
}

} // verus!
