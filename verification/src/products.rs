//! The repository rules for product bindings: what a caller may create,
//! read, update and delete, applied to the stored rows.

use vstd::prelude::*;
use crate::acl::{Action, Forbidden, Resource, UserRole, allowed, authorize, role_permits};
use crate::availability::bound_to;
use crate::errors::Error;
use crate::models::{CompanyPackage, Package, Products, ProductsWithAvailableCountries, clone_codes};
use crate::ordering::{sort_by_key, sorted_by_key};
use crate::search::{first_index, position_where};

verus! {

/// The changes an update makes to a binding.
#[derive(Clone, Copy, Debug, PartialEq, Eq)]
pub struct UpdateProducts {
    pub price: Option<u64>,
}

/// The bindings of a base product.
pub open spec fn of_product(base_product_id: i32) -> spec_fn(Products) -> bool {
    |b: Products| b.base_product_id == base_product_id
}

/// The bindings of every other base product.
pub open spec fn of_other_product(base_product_id: i32) -> spec_fn(Products) -> bool {
    |b: Products| b.base_product_id != base_product_id
}

/// The caller may perform the action on the binding.
pub open spec fn may(roles: Seq<UserRole>, caller: Option<i32>, action: Action, binding: Products) -> bool {
    allowed(roles, caller, Resource::Products, action, Some(Some(binding.store_id)))
}

/// The caller may perform the action on every one of the bindings.
pub open spec fn may_all(
    roles: Seq<UserRole>,
    caller: Option<i32>,
    action: Action,
    bindings: Seq<Products>,
) -> bool {
    forall|i: int| 0 <= i < bindings.len() ==> may(roles, caller, action, #[trigger] bindings[i])
}

/// The caller may perform the action on bindings at all, whichever they
/// are: the check made before any binding is looked at.
pub open spec fn may_at_all(roles: Seq<UserRole>, caller: Option<i32>, action: Action) -> bool {
    allowed(roles, caller, Resource::Products, action, None)
}

/// The caller passes the check on bindings at all, and the check on every
/// one of the bindings given.
pub open spec fn permitted(
    roles: Seq<UserRole>,
    caller: Option<i32>,
    action: Action,
    bindings: Seq<Products>,
) -> bool {
    may_at_all(roles, caller, action) && may_all(roles, caller, action, bindings)
}

/// The error a denied action on a binding is reported with.
pub open spec fn denied(action: Action) -> Error {
    Error::Forbidden(Forbidden { resource: Resource::Products, action })
}

/// The binding after an update: a price that the payload sets takes the
/// place of the binding's; where the payload sets none the binding keeps
/// its own. Nothing else changes.
pub open spec fn updated(binding: Products, payload: UpdateProducts) -> Products {
    Products {
        id: binding.id,
        base_product_id: binding.base_product_id,
        store_id: binding.store_id,
        company_package_id: binding.company_package_id,
        price: if payload.price is Some {
            payload.price
        } else {
            binding.price
        },
    }
}

/// Applies an update to a binding.
pub fn apply(binding: &Products, payload: &UpdateProducts) -> (after: Products)
    ensures
        after == updated(*binding, *payload),
{
    Products {
        id: binding.id,
        base_product_id: binding.base_product_id,
        store_id: binding.store_id,
        company_package_id: binding.company_package_id,
        price: match payload.price {
            Some(price) => Some(price),
            None => binding.price,
        },
    }
}

/// The bindings all belong to one store.
pub open spec fn share_store(bindings: Seq<Products>) -> bool {
    forall|i: int, j: int|
        0 <= i < bindings.len() && 0 <= j < bindings.len() ==> (#[trigger] bindings[i]).store_id
            == (#[trigger] bindings[j]).store_id
}

/// Who may perform an action on one binding may perform it on bindings at
/// all, and on every binding of the same store.
pub proof fn lemma_owner_is_permitted(
    roles: Seq<UserRole>,
    caller: Option<i32>,
    action: Action,
    bindings: Seq<Products>,
    i: int,
)
    requires
        0 <= i < bindings.len(),
        may(roles, caller, action, bindings[i]),
        share_store(bindings),
    ensures
        permitted(roles, caller, action, bindings),
{
    let own = Some(Some(bindings[i].store_id));
    if caller is Some {
        let user_id = caller->Some_0;
        let k = choose|k: int| #[trigger] role_permits(roles, user_id, Resource::Products, action, own, k);
        assert(role_permits(roles, user_id, Resource::Products, action, None, k));
    }
    assert forall|j: int| 0 <= j < bindings.len() implies may(roles, caller, action, #[trigger] bindings[j]) by {
        assert(bindings[j].store_id == bindings[i].store_id);
    }
}

/// Checks one action on one binding.
pub fn check(roles: &Vec<UserRole>, caller: Option<i32>, action: Action, binding: &Products) -> (r:
    Result<(), Error>)
    ensures
        r == (if may(roles@, caller, action, *binding) {
            Ok::<(), Error>(())
        } else {
            Err::<(), Error>(denied(action))
        }),
{
    match authorize(roles, caller, Resource::Products, action, Some(binding)) {
        Ok(_) => Ok(()),
        Err(e) => Err(Error::Forbidden(e)),
    }
}

/// Checks one action on bindings at all, no binding having been looked at.
pub fn check_at_all(roles: &Vec<UserRole>, caller: Option<i32>, action: Action) -> (r: Result<(), Error>)
    ensures
        r == (if may_at_all(roles@, caller, action) {
            Ok::<(), Error>(())
        } else {
            Err::<(), Error>(denied(action))
        }),
{
    match authorize::<Products>(roles, caller, Resource::Products, action, None) {
        Ok(_) => Ok(()),
        Err(e) => Err(Error::Forbidden(e)),
    }
}

/// Checks one action on bindings at all and then on each of the bindings,
/// in order.
pub fn check_permitted(
    roles: &Vec<UserRole>,
    caller: Option<i32>,
    action: Action,
    bindings: &Vec<Products>,
) -> (r: Result<(), Error>)
    ensures
        r == (if permitted(roles@, caller, action, bindings@) {
            Ok::<(), Error>(())
        } else {
            Err::<(), Error>(denied(action))
        }),
{
    match check_at_all(roles, caller, action) {
        Err(e) => Err(e),
        Ok(_) => check_all(roles, caller, action, bindings),
    }
}

/// Checks one action on each of the bindings, in order.
pub fn check_all(roles: &Vec<UserRole>, caller: Option<i32>, action: Action, bindings: &Vec<Products>) -> (r:
    Result<(), Error>)
    ensures
        r == (if may_all(roles@, caller, action, bindings@) {
            Ok::<(), Error>(())
        } else {
            Err::<(), Error>(denied(action))
        }),
{
    let mut i: usize = 0;
    while i < bindings.len()
        invariant
            0 <= i <= bindings.len(),
            forall|j: int| 0 <= j < i ==> may(roles@, caller, action, #[trigger] bindings@[j]),
        decreases bindings.len() - i,
    {
        match check(roles, caller, action, &bindings[i]) {
            Ok(_) => {},
            Err(e) => {
                assert(!may(roles@, caller, action, bindings@[i as int]));
                return Err(e);
            },
        }
        i += 1;
    }
    Ok(())
}

/// The rule for a binding that was just stored: the caller must be allowed
/// to create it, else the action is denied.
pub fn create(roles: &Vec<UserRole>, caller: Option<i32>, stored: Products) -> (r: Result<
    Products,
    Error,
>)
    ensures
        r == (if may(roles@, caller, Action::Create, stored) {
            Ok::<Products, Error>(stored)
        } else {
            Err::<Products, Error>(denied(Action::Create))
        }),
{
    match check(roles, caller, Action::Create, &stored) {
        Ok(_) => Ok(stored),
        Err(e) => Err(e),
    }
}

/// The rule for several bindings that were just stored: the caller must be
/// allowed to create bindings at all and each of these; they are answered
/// ascending by id.
pub fn create_many(roles: &Vec<UserRole>, caller: Option<i32>, stored: Vec<Products>) -> (r: Result<
    Vec<Products>,
    Error,
>)
    ensures
        if permitted(roles@, caller, Action::Create, stored@) {
            r matches Ok(sorted) && sorted_by_key(sorted@) && sorted@.to_multiset()
                == stored@.to_multiset()
        } else {
            r == Err::<Vec<Products>, Error>(denied(Action::Create))
        },
{
    match check_permitted(roles, caller, Action::Create, &stored) {
        Ok(_) => Ok(sort_by_key(stored)),
        Err(e) => Err(e),
    }
}

/// The stored bindings that satisfy the given test on the base product id,
/// in stored order.
fn select(rows: &Vec<Products>, base_product_id: i32, same: bool) -> (found: Vec<Products>)
    ensures
        found@ == rows@.filter(
            if same {
                of_product(base_product_id)
            } else {
                of_other_product(base_product_id)
            },
        ),
{
    let ghost p = if same {
        of_product(base_product_id)
    } else {
        of_other_product(base_product_id)
    };
    let mut found: Vec<Products> = Vec::new();
    let mut i: usize = 0;
    assert(rows@.take(0).filter(p) =~= Seq::<Products>::empty()) by {
        rows@.take(0).lemma_filter_len(p);
    }
    while i < rows.len()
        invariant
            0 <= i <= rows.len(),
            p == (if same {
                of_product(base_product_id)
            } else {
                of_other_product(base_product_id)
            }),
            found@ == rows@.take(i as int).filter(p),
        decreases rows.len() - i,
    {
        proof {
            rows@.lemma_take_succ_push(i as int);
            rows@.take(i as int).lemma_filter_push(rows@[i as int], p);
        }
        if (rows[i].base_product_id == base_product_id) == same {
            found.push(rows[i]);
        }
        i += 1;
    }
    assert(rows@.take(i as int) =~= rows@);
    found
}

/// The bindings of a base product, in stored order, for a caller who may
/// read bindings at all and every one of these. A caller who may not read
/// bindings is denied whether or not the product has any.
pub fn get_by_base_product_id(
    roles: &Vec<UserRole>,
    caller: Option<i32>,
    rows: &Vec<Products>,
    base_product_id: i32,
) -> (r: Result<Vec<Products>, Error>)
    ensures
        if permitted(roles@, caller, Action::Read, rows@.filter(of_product(base_product_id))) {
            r matches Ok(found) && found@ == rows@.filter(of_product(base_product_id))
        } else {
            r == Err::<Vec<Products>, Error>(denied(Action::Read))
        },
{
    let found = select(rows, base_product_id, true);
    match check_permitted(roles, caller, Action::Read, &found) {
        Ok(_) => Ok(found),
        Err(e) => Err(e),
    }
}

/// Removes the bindings of a base product, for a caller who may delete
/// bindings at all and every one of these, and answers with what was
/// removed. Otherwise the caller is denied and nothing is removed.
pub fn delete(
    roles: &Vec<UserRole>,
    caller: Option<i32>,
    rows: &mut Vec<Products>,
    base_product_id: i32,
) -> (r: Result<Vec<Products>, Error>)
    ensures
        if permitted(roles@, caller, Action::Delete, old(rows)@.filter(of_product(base_product_id))) {
            &&& r matches Ok(removed)
            &&& removed@ == old(rows)@.filter(of_product(base_product_id))
            &&& final(rows)@ == old(rows)@.filter(of_other_product(base_product_id))
        } else {
            &&& r == Err::<Vec<Products>, Error>(denied(Action::Delete))
            &&& final(rows)@ == old(rows)@
        },
{
    let removed = select(rows, base_product_id, true);
    match check_permitted(roles, caller, Action::Delete, &removed) {
        Ok(_) => {
            let kept = select(rows, base_product_id, false);
            *rows = kept;
            Ok(removed)
        },
        Err(e) => Err(e),
    }
}

/// The position of the first binding of the base product to the company
/// package.
fn position_bound(rows: &Vec<Products>, base_product_id: i32, company_package_id: i32) -> (found:
    Option<usize>)
    ensures
        match found {
            Some(i) => first_index(rows@, bound_to(base_product_id, company_package_id)) == Some(
                i as int,
            ),
            None => first_index(rows@, bound_to(base_product_id, company_package_id)) is None,
        },
{
    let test = |b: &Products| -> (hit: bool)
        ensures
            hit == (b.base_product_id == base_product_id && b.company_package_id == company_package_id),
    {
        b.base_product_id == base_product_id && b.company_package_id == company_package_id
    };
    position_where(rows, Ghost(bound_to(base_product_id, company_package_id)), test)
}

/// What the rows are after the bindings of a base product to a company
/// package were updated.
pub open spec fn rows_updated(
    rows: Seq<Products>,
    base_product_id: i32,
    company_package_id: i32,
    payload: UpdateProducts,
) -> Seq<Products> {
    Seq::new(
        rows.len(),
        |i: int|
            if bound_to(base_product_id, company_package_id)(rows[i]) {
                updated(rows[i], payload)
            } else {
                rows[i]
            },
    )
}

/// The bindings of a base product to a company package, in stored order.
fn select_bound(rows: &Vec<Products>, base_product_id: i32, company_package_id: i32) -> (found: Vec<
    Products,
>)
    ensures
        found@ == rows@.filter(bound_to(base_product_id, company_package_id)),
{
    let ghost p = bound_to(base_product_id, company_package_id);
    let mut found: Vec<Products> = Vec::new();
    let mut i: usize = 0;
    assert(rows@.take(0).filter(p) =~= Seq::<Products>::empty()) by {
        rows@.take(0).lemma_filter_len(p);
    }
    while i < rows.len()
        invariant
            0 <= i <= rows.len(),
            p == bound_to(base_product_id, company_package_id),
            found@ == rows@.take(i as int).filter(p),
        decreases rows.len() - i,
    {
        proof {
            rows@.lemma_take_succ_push(i as int);
            rows@.take(i as int).lemma_filter_push(rows@[i as int], p);
        }
        if rows[i].base_product_id == base_product_id && rows[i].company_package_id
            == company_package_id {
            found.push(rows[i]);
        }
        i += 1;
    }
    assert(rows@.take(i as int) =~= rows@);
    found
}

/// Updates the bindings of a base product to a company package, for a
/// caller who may update bindings at all and every binding of the pair:
/// whoever may not update one of them is denied and nothing changes.
/// `NotFound` where the pair has no binding. Every binding of the pair is
/// updated; the answer is the first of them after the update.
pub fn update(
    roles: &Vec<UserRole>,
    caller: Option<i32>,
    rows: &mut Vec<Products>,
    base_product_id: i32,
    company_package_id: i32,
    payload: UpdateProducts,
) -> (r: Result<Products, Error>)
    ensures
        if !permitted(
            roles@,
            caller,
            Action::Update,
            old(rows)@.filter(bound_to(base_product_id, company_package_id)),
        ) {
            r == Err::<Products, Error>(denied(Action::Update)) && final(rows)@ == old(rows)@
        } else {
            match first_index(old(rows)@, bound_to(base_product_id, company_package_id)) {
                None => r == Err::<Products, Error>(Error::NotFound) && final(rows)@ == old(rows)@,
                Some(i) => {
                    &&& r == Ok::<Products, Error>(updated(old(rows)@[i], payload))
                    &&& final(rows)@ == rows_updated(
                        old(rows)@,
                        base_product_id,
                        company_package_id,
                        payload,
                    )
                },
            }
        },
{
    let bound = select_bound(rows, base_product_id, company_package_id);
    match check_permitted(roles, caller, Action::Update, &bound) {
        Err(e) => {
            return Err(e);
        },
        Ok(_) => {},
    }
    let ghost p = bound_to(base_product_id, company_package_id);
    let first = position_bound(rows, base_product_id, company_package_id);
    let k = match first {
        None => {
            return Err(Error::NotFound);
        },
        Some(k) => k,
    };
    let found = rows[k];
    let mut j: usize = 0;
    while j < rows.len()
        invariant
            0 <= j <= rows.len(),
            rows@.len() == old(rows)@.len(),
            p == bound_to(base_product_id, company_package_id),
            forall|q: int|
                0 <= q < j ==> #[trigger] rows@[q] == rows_updated(
                    old(rows)@,
                    base_product_id,
                    company_package_id,
                    payload,
                )[q],
            forall|q: int| j <= q < rows@.len() ==> #[trigger] rows@[q] == old(rows)@[q],
        decreases rows.len() - j,
    {
        let b = rows[j];
        if b.base_product_id == base_product_id && b.company_package_id == company_package_id {
            rows.set(j, apply(&b, &payload));
        }
        j += 1;
    }
    assert(rows@ =~= rows_updated(old(rows)@, base_product_id, company_package_id, payload));
    Ok(apply(&found, &payload))
}

/// The bindings of the joined rows.
pub open spec fn bindings_of(joined: Seq<(Products, CompanyPackage, Package)>) -> Seq<Products> {
    Seq::new(joined.len(), |i: int| joined[i].0)
}

/// Pairs each binding with the countries its package delivers to, for a
/// caller who may read bindings at all and every one of these; otherwise
/// the caller is denied and nothing is handed out. A row is a binding
/// joined with its company package and the package of that.
pub fn get_products_countries(
    roles: &Vec<UserRole>,
    caller: Option<i32>,
    joined: &Vec<(Products, CompanyPackage, Package)>,
) -> (r: Result<Vec<ProductsWithAvailableCountries>, Error>)
    ensures
        if permitted(roles@, caller, Action::Read, bindings_of(joined@)) {
            &&& r matches Ok(list)
            &&& list@.len() == joined@.len()
            &&& forall|i: int|
                0 <= i < list@.len() ==> (#[trigger] list@[i]).0 == joined@[i].0 && list@[i].1@
                    == joined@[i].2.deliveries_to@
        } else {
            r is Err && r->Err_0 == denied(Action::Read)
        },
{
    match check_at_all(roles, caller, Action::Read) {
        Err(e) => {
            return Err(e);
        },
        Ok(_) => {},
    }
    let mut list: Vec<ProductsWithAvailableCountries> = Vec::new();
    let mut i: usize = 0;
    while i < joined.len()
        invariant
            0 <= i <= joined.len(),
            list@.len() == i,
            may_at_all(roles@, caller, Action::Read),
            forall|j: int| 0 <= j < i ==> may(roles@, caller, Action::Read, #[trigger] joined@[j].0),
            forall|j: int|
                0 <= j < i ==> (#[trigger] list@[j]).0 == joined@[j].0 && list@[j].1@
                    == joined@[j].2.deliveries_to@,
        decreases joined.len() - i,
    {
        let row = &joined[i];
        match check(roles, caller, Action::Read, &row.0) {
            Err(e) => {
                assert(bindings_of(joined@)[i as int] == joined@[i as int].0);
                return Err(e);
            },
            Ok(_) => {},
        }
        list.push(ProductsWithAvailableCountries(row.0, clone_codes(&row.2.deliveries_to)));
        i += 1;
    }
    assert forall|j: int| 0 <= j < bindings_of(joined@).len() implies may(
        roles@,
        caller,
        Action::Read,
        #[trigger] bindings_of(joined@)[j],
    ) by {
        assert(bindings_of(joined@)[j] == joined@[j].0);
    }
    Ok(list)
}

} // verus!
