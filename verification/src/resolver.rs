//! Checking a shipment against the country directory, and pricing a lane.

use vstd::prelude::*;
use vstd::string::*;
use crate::catalog::{
    admits, admits_destination, company_package_with, find_company_package, find_rate, rate_of,
};
use crate::countries::{Country, CountryDirectory, has_alpha3};
use crate::errors::Error;
use crate::models::{Catalog, Price};
use crate::rates::{
    Tier, applicable_tier, covers, has_covering, is_first_covering, lemma_applicable_tier,
    lemma_applicable_tier_minimal, resolve_tier, tiers_ascending,
};
use crate::search::{any, first_index, lemma_first_index};

verus! {

/// An ASCII letter, of either case.
pub open spec fn is_ascii_letter(c: char) -> bool {
    ('a' <= c && c <= 'z') || ('A' <= c && c <= 'Z')
}

/// The shape of an alpha-3 country code: exactly three ASCII letters.
pub open spec fn well_formed_alpha3(code: Seq<char>) -> bool {
    code.len() == 3 && forall|i: int| 0 <= i < 3 ==> is_ascii_letter(#[trigger] code[i])
}

/// Whether the code has the shape of an alpha-3 country code.
pub fn is_alpha3(code: &String) -> (ok: bool)
    ensures
        ok == well_formed_alpha3(code@),
{
    let s = code.as_str();
    if s.unicode_len() != 3 {
        return false;
    }
    let mut i: usize = 0;
    while i < 3
        invariant
            0 <= i <= 3,
            s@ == code@,
            s@.len() == 3,
            forall|j: int| 0 <= j < i ==> is_ascii_letter(#[trigger] code@[j]),
        decreases 3 - i,
    {
        let c = s.get_char(i);
        if !((c >= 'a' && c <= 'z') || (c >= 'A' && c <= 'Z')) {
            return false;
        }
        i += 1;
    }
    true
}

/// Checks the shape of a country code alone, as is done with a code that is
/// stored rather than looked up: a malformed code is refused with
/// `Validate`.
pub fn check_code_shape(code: &String) -> (r: Result<(), Error>)
    ensures
        r == (if well_formed_alpha3(code@) {
            Ok::<(), Error>(())
        } else {
            Err::<(), Error>(Error::Validate)
        }),
{
    if is_alpha3(code) {
        Ok(())
    } else {
        Err(Error::Validate)
    }
}

/// Why a country code is refused, if it is: `Validate` where it is
/// malformed, `NotFound` where the directory holds no country with the
/// code.
pub open spec fn country_refusal(directory: Seq<Country>, code: Seq<char>) -> Option<Error> {
    if !well_formed_alpha3(code) {
        Some(Error::Validate)
    } else if !any(directory, has_alpha3(code)) {
        Some(Error::NotFound)
    } else {
        None
    }
}

/// The code as the directory holds it: the alpha-3 code of the first
/// country that has the code given. This is the form in which codes are
/// matched against restrictions, origins and rate entries.
pub open spec fn stored_code(directory: Seq<Country>, code: Seq<char>) -> String {
    directory[first_index(directory, has_alpha3(code))->Some_0].alpha3
}

/// Why a shipment is refused before any matching, if it is: a dimension
/// that is not positive or a malformed code gives `Validate`, a country the
/// directory does not know gives `NotFound`.
pub open spec fn shipment_refusal(
    directory: Seq<Country>,
    from: Seq<char>,
    to: Seq<char>,
    volume: u32,
    weight: u32,
) -> Option<Error> {
    if volume == 0 || weight == 0 || !well_formed_alpha3(from) || !well_formed_alpha3(to) {
        Some(Error::Validate)
    } else if !any(directory, has_alpha3(from)) || !any(directory, has_alpha3(to)) {
        Some(Error::NotFound)
    } else {
        None
    }
}

/// Checks a country code against its shape and the directory and answers
/// with the code as the directory holds it.
pub fn check_country(directory: &CountryDirectory, code: &String) -> (r: Result<String, Error>)
    ensures
        r == match country_refusal(directory@, code@) {
            Some(e) => Err::<String, Error>(e),
            None => Ok::<String, Error>(stored_code(directory@, code@)),
        },
{
    if !is_alpha3(code) {
        return Err(Error::Validate);
    }
    match directory.alpha3_of(code) {
        Some(stored) => Ok(stored),
        None => Err(Error::NotFound),
    }
}

/// Checks the dimensions and both country codes of a shipment and answers
/// with origin and destination as the directory holds them.
pub fn check_shipment(
    directory: &CountryDirectory,
    from: &String,
    to: &String,
    volume: u32,
    weight: u32,
) -> (r: Result<(String, String), Error>)
    ensures
        r == match shipment_refusal(directory@, from@, to@, volume, weight) {
            Some(e) => Err::<(String, String), Error>(e),
            None => Ok::<(String, String), Error>(
                (stored_code(directory@, from@), stored_code(directory@, to@)),
            ),
        },
{
    if volume == 0 || weight == 0 || !is_alpha3(from) || !is_alpha3(to) {
        return Err(Error::Validate);
    }
    match (directory.alpha3_of(from), directory.alpha3_of(to)) {
        (Some(origin), Some(destination)) => Ok((origin, destination)),
        _ => Err(Error::NotFound),
    }
}

/// The rate table of a lane: the tiers of the first rate entry of the
/// company package for the origin. A lane without an entry and a lane whose
/// entry holds no tier are the same: they have no table.
pub open spec fn lane_table(catalog: Catalog, company_package_id: i32, from: Seq<char>) -> Option<
    Seq<Tier>,
> {
    match first_index(catalog.rates@, rate_of(company_package_id, from)) {
        Some(r) => if catalog.rates@[r].tiers@.len() > 0 {
            Some(catalog.rates@[r].tiers@)
        } else {
            None
        },
        None => None,
    }
}

/// The price of a lane for a parcel: the company package must exist and
/// admit the destination and the lane must have a rate table (else
/// `NotFound`); the amount is that of the applicable tier (else
/// `NoApplicableRate`), in the currency the company package declares.
/// Origin and destination are codes as the directory holds them.
pub open spec fn lane_price(
    catalog: Catalog,
    company_package_id: i32,
    from: Seq<char>,
    to: Seq<char>,
    volume: u32,
    weight: u32,
) -> Result<Price, Error> {
    match first_index(catalog.companies_packages@, company_package_with(company_package_id)) {
        None => Err(Error::NotFound),
        Some(i) => if !admits(catalog, company_package_id, to) {
            Err(Error::NotFound)
        } else {
            match lane_table(catalog, company_package_id, from) {
                None => Err(Error::NotFound),
                Some(tiers) => match applicable_tier(tiers, weight, volume) {
                    Some(t) => Ok(
                        Price { amount: t.price, currency: catalog.companies_packages@[i].currency },
                    ),
                    None => Err(Error::NoApplicableRate),
                },
            }
        },
    }
}

/// What `get_delivery_price` answers: the refusal of the shipment, or the
/// price of the lane between the countries as the directory holds them.
pub open spec fn delivery_price(
    directory: Seq<Country>,
    catalog: Catalog,
    company_package_id: i32,
    from: Seq<char>,
    to: Seq<char>,
    volume: u32,
    weight: u32,
) -> Result<Price, Error> {
    match shipment_refusal(directory, from, to, volume, weight) {
        Some(e) => Err(e),
        None => lane_price(
            catalog,
            company_package_id,
            stored_code(directory, from)@,
            stored_code(directory, to)@,
            volume,
            weight,
        ),
    }
}

/// Computes the price of a lane for a parcel that has passed the shipment
/// checks.
pub fn price_lane(
    catalog: &Catalog,
    company_package_id: i32,
    delivery_from: &String,
    delivery_to: &String,
    volume: u32,
    weight: u32,
) -> (r: Result<Price, Error>)
    ensures
        r == lane_price(*catalog, company_package_id, delivery_from@, delivery_to@, volume, weight),
{
    let i = match find_company_package(&catalog.companies_packages, company_package_id) {
        Some(i) => i,
        None => {
            return Err(Error::NotFound);
        },
    };
    if !admits_destination(catalog, company_package_id, delivery_to) {
        return Err(Error::NotFound);
    }
    match find_rate(&catalog.rates, company_package_id, delivery_from) {
        None => Err(Error::NotFound),
        Some(r) => {
            if catalog.rates[r].tiers.len() == 0 {
                return Err(Error::NotFound);
            }
            match resolve_tier(&catalog.rates[r].tiers, weight, volume) {
                Ok(t) => Ok(
                    Price {
                        amount: t.price,
                        currency: catalog.companies_packages[i].currency.clone(),
                    },
                ),
                Err(e) => Err(e),
            }
        },
    }
}

/// The price for carrying a parcel with a company package from one country
/// to another. The codes may be given in any case.
pub fn get_delivery_price(
    directory: &CountryDirectory,
    catalog: &Catalog,
    company_package_id: i32,
    delivery_from: &String,
    delivery_to: &String,
    volume: u32,
    weight: u32,
) -> (r: Result<Price, Error>)
    ensures
        r == delivery_price(
            directory@,
            *catalog,
            company_package_id,
            delivery_from@,
            delivery_to@,
            volume,
            weight,
        ),
{
    match check_shipment(directory, delivery_from, delivery_to, volume, weight) {
        Err(e) => Err(e),
        Ok((origin, destination)) => price_lane(
            catalog,
            company_package_id,
            &origin,
            &destination,
            volume,
            weight,
        ),
    }
}

/// A parcel that passes the shipment checks, on a lane whose company
/// package exists and admits the destination and whose ascending rate table
/// has a covering tier, is priced by the least covering tier: the amount is
/// that of a tier that covers the parcel, no tier before it covers the
/// parcel, and no covering tier has a smaller breakpoint. The currency is
/// the one the company package declares.
pub proof fn lemma_delivery_price_is_least_covering_tier(
    directory: Seq<Country>,
    catalog: Catalog,
    company_package_id: i32,
    from: Seq<char>,
    to: Seq<char>,
    volume: u32,
    weight: u32,
    tiers: Seq<Tier>,
)
    requires
        shipment_refusal(directory, from, to, volume, weight) is None,
        first_index(catalog.companies_packages@, company_package_with(company_package_id)) is Some,
        admits(catalog, company_package_id, stored_code(directory, to)@),
        lane_table(catalog, company_package_id, stored_code(directory, from)@) == Some(tiers),
        tiers_ascending(tiers),
        has_covering(tiers, weight, volume),
    ensures
        ({
            let offering = catalog.companies_packages@[first_index(
                catalog.companies_packages@,
                company_package_with(company_package_id),
            )->Some_0];
            &&& delivery_price(directory, catalog, company_package_id, from, to, volume, weight)
                matches Ok(price)
            &&& price.currency == offering.currency
            &&& exists|i: int|
                {
                    &&& #[trigger] is_first_covering(tiers, weight, volume, i)
                    &&& tiers[i].price == price.amount
                    &&& forall|k: int|
                        0 <= k < tiers.len() && covers(#[trigger] tiers[k], weight, volume)
                            ==> tiers[i].weight <= tiers[k].weight && tiers[i].volume
                            <= tiers[k].volume
                }
        }),
{
    lemma_applicable_tier(tiers, weight, volume);
    let t = applicable_tier(tiers, weight, volume)->Some_0;
    let i = choose|i: int| #[trigger] is_first_covering(tiers, weight, volume, i) && tiers[i] == t;
    assert forall|k: int| 0 <= k < tiers.len() && covers(#[trigger] tiers[k], weight, volume) implies tiers[i].weight
        <= tiers[k].weight && tiers[i].volume <= tiers[k].volume by {
        lemma_applicable_tier_minimal(tiers, weight, volume, k);
    }
}

/// A parcel that exceeds every tier of its lane's rate table is refused
/// with `NoApplicableRate`.
pub proof fn lemma_delivery_price_exceeding_every_tier(
    directory: Seq<Country>,
    catalog: Catalog,
    company_package_id: i32,
    from: Seq<char>,
    to: Seq<char>,
    volume: u32,
    weight: u32,
    tiers: Seq<Tier>,
)
    requires
        shipment_refusal(directory, from, to, volume, weight) is None,
        first_index(catalog.companies_packages@, company_package_with(company_package_id)) is Some,
        admits(catalog, company_package_id, stored_code(directory, to)@),
        lane_table(catalog, company_package_id, stored_code(directory, from)@) == Some(tiers),
        forall|i: int| 0 <= i < tiers.len() ==> !covers(#[trigger] tiers[i], weight, volume),
    ensures
        delivery_price(directory, catalog, company_package_id, from, to, volume, weight) == Err::<
            Price,
            Error,
        >(Error::NoApplicableRate),
{
    lemma_applicable_tier(tiers, weight, volume);
}

/// A destination outside the restriction's list is never priced, whatever
/// the rate table holds.
pub proof fn lemma_delivery_price_needs_admitted_destination(
    directory: Seq<Country>,
    catalog: Catalog,
    company_package_id: i32,
    from: Seq<char>,
    to: Seq<char>,
    volume: u32,
    weight: u32,
)
    requires
        !admits(catalog, company_package_id, stored_code(directory, to)@),
    ensures
        delivery_price(directory, catalog, company_package_id, from, to, volume, weight) is Err,
        shipment_refusal(directory, from, to, volume, weight) is None ==> delivery_price(
            directory,
            catalog,
            company_package_id,
            from,
            to,
            volume,
            weight,
        ) == Err::<Price, Error>(Error::NotFound),
{
}

/// The code the directory holds for a code it knows is the same code:
/// equal to it in normal form.
pub proof fn lemma_stored_code_is_same_code(directory: Seq<Country>, code: Seq<char>)
    requires
        any(directory, has_alpha3(code)),
    ensures
        crate::text::normal(stored_code(directory, code)@) == crate::text::normal(code),
{
    lemma_first_index(directory, has_alpha3(code));
}

} // verus!
