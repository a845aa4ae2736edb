use delivery::acl::{
    anonymous_may, authorize, is_in_scope, required_scope, user_holds_datum, Action, Forbidden,
    Resource, RoleKind, Scope, UserRole,
};
use delivery::countries::Country;
use delivery::errors::Error;
use delivery::models::Products;
use delivery::products::{check, check_all, create, create_many, delete, get_by_base_product_id, get_products_countries, update, UpdateProducts};
use delivery::models::{CompanyPackage, Package};

fn role(id: u128, user_id: i32, name: RoleKind, data: Option<i32>) -> UserRole {
    UserRole { id, user_id, name, data }
}

fn row(id: i32, base_product_id: i32, store_id: i32, company_package_id: i32) -> Products {
    Products { id, base_product_id, store_id, company_package_id, price: None }
}

fn denied(resource: Resource, action: Action) -> Forbidden {
    Forbidden { resource, action }
}

#[test]
fn rule_table_entries() {
    for resource in [Resource::Companies, Resource::Countries, Resource::Products, Resource::UserRoles] {
        for action in [Action::Create, Action::Read, Action::Update, Action::Delete] {
            assert_eq!(required_scope(RoleKind::Superuser, resource, action), Some(Scope::All));
        }
    }
    assert_eq!(required_scope(RoleKind::User, Resource::Countries, Action::Read), Some(Scope::All));
    assert_eq!(required_scope(RoleKind::User, Resource::Countries, Action::Create), None);
    assert_eq!(required_scope(RoleKind::User, Resource::Products, Action::Update), Some(Scope::Owned));
    assert_eq!(required_scope(RoleKind::User, Resource::UserAddresses, Action::Delete), Some(Scope::Owned));
    assert_eq!(required_scope(RoleKind::User, Resource::UserRoles, Action::Read), None);
    assert_eq!(required_scope(RoleKind::User, Resource::UserRoles, Action::Create), None);
    assert_eq!(required_scope(RoleKind::User, Resource::ShippingRates, Action::Delete), None);
    assert!(anonymous_may(Resource::Countries, Action::Read));
    assert!(anonymous_may(Resource::ShippingRates, Action::Read));
    assert!(!anonymous_may(Resource::Countries, Action::Create));
    assert!(!anonymous_may(Resource::Products, Action::Read));
    assert!(!anonymous_may(Resource::UserRoles, Action::Read));
}

#[test]
fn caller_without_a_granting_role_is_denied_whatever_the_target() {
    let roles = vec![role(1, 2, RoleKind::User, Some(7)), role(2, 3, RoleKind::Superuser, None)];
    let target = row(1, 100, 7, 1);
    let expected = Err(denied(Resource::Countries, Action::Create));
    assert_eq!(authorize::<Products>(&roles, Some(2), Resource::Countries, Action::Create, None), expected);
    assert_eq!(authorize(&roles, Some(2), Resource::Countries, Action::Create, Some(&target)), expected);
    assert_eq!(
        authorize::<Products>(&Vec::new(), Some(2), Resource::Products, Action::Read, None),
        Err(denied(Resource::Products, Action::Read))
    );
    assert_eq!(
        authorize(&roles, Some(9), Resource::Products, Action::Read, Some(&target)),
        Err(denied(Resource::Products, Action::Read))
    );
}

#[test]
fn owned_scope_follows_the_datum_of_the_role() {
    let roles = vec![role(1, 2, RoleKind::User, Some(7))];
    let own = row(1, 100, 7, 1);
    let foreign = row(2, 100, 8, 1);
    assert_eq!(authorize(&roles, Some(2), Resource::Products, Action::Update, Some(&own)), Ok(()));
    assert_eq!(
        authorize(&roles, Some(2), Resource::Products, Action::Update, Some(&foreign)),
        Err(denied(Resource::Products, Action::Update))
    );
    assert_eq!(authorize::<Products>(&roles, Some(2), Resource::Products, Action::Read, None), Ok(()));
    let no_datum = vec![role(1, 2, RoleKind::User, None)];
    assert_eq!(
        authorize(&no_datum, Some(2), Resource::Products, Action::Update, Some(&own)),
        Err(denied(Resource::Products, Action::Update))
    );
    let others_datum = vec![role(1, 2, RoleKind::User, None), role(2, 3, RoleKind::User, Some(7))];
    assert_eq!(
        authorize(&others_datum, Some(2), Resource::Products, Action::Update, Some(&own)),
        Err(denied(Resource::Products, Action::Update))
    );
}

#[test]
fn superuser_and_anonymous_callers() {
    let roles = vec![role(1, 1, RoleKind::Superuser, None)];
    let foreign = row(2, 100, 8, 1);
    assert_eq!(authorize(&roles, Some(1), Resource::Products, Action::Delete, Some(&foreign)), Ok(()));
    assert_eq!(authorize::<Country>(&roles, Some(1), Resource::Countries, Action::Create, None), Ok(()));
    assert_eq!(authorize::<Country>(&roles, None, Resource::Countries, Action::Read, None), Ok(()));
    assert_eq!(
        authorize::<Country>(&roles, None, Resource::Countries, Action::Create, None),
        Err(denied(Resource::Countries, Action::Create))
    );
    assert_eq!(
        authorize(&roles, None, Resource::Products, Action::Read, Some(&foreign)),
        Err(denied(Resource::Products, Action::Read))
    );
}

#[test]
fn scope_check_against_roles() {
    let roles = vec![role(1, 2, RoleKind::User, Some(7)), role(2, 2, RoleKind::User, Some(9))];
    let own = row(1, 100, 9, 1);
    let foreign = row(2, 100, 8, 1);
    assert!(is_in_scope(&roles, 2, &Scope::All, Some(&foreign)));
    assert!(is_in_scope(&roles, 2, &Scope::Owned, Some(&own)));
    assert!(!is_in_scope(&roles, 2, &Scope::Owned, Some(&foreign)));
    assert!(!is_in_scope(&roles, 3, &Scope::Owned, Some(&own)));
    assert!(is_in_scope::<Products>(&roles, 2, &Scope::Owned, None));
    assert!(!is_in_scope(&Vec::new(), 2, &Scope::Owned, Some(&own)));
    assert!(user_holds_datum(&roles, 2, 9));
    assert!(!user_holds_datum(&roles, 2, 8));
}

#[test]
fn binding_checks_report_forbidden() {
    let roles = vec![role(1, 2, RoleKind::User, Some(7))];
    let own = row(1, 100, 7, 1);
    let foreign = row(2, 100, 8, 1);
    assert_eq!(check(&roles, Some(2), Action::Read, &own), Ok(()));
    assert_eq!(
        check(&roles, Some(2), Action::Read, &foreign),
        Err(Error::Forbidden(denied(Resource::Products, Action::Read)))
    );
    assert_eq!(check_all(&roles, Some(2), Action::Delete, &vec![own, own]), Ok(()));
    assert_eq!(
        check_all(&roles, Some(2), Action::Delete, &vec![own, foreign]),
        Err(Error::Forbidden(denied(Resource::Products, Action::Delete)))
    );
    assert_eq!(check_all(&roles, Some(2), Action::Delete, &Vec::new()), Ok(()));
}

#[test]
fn created_bindings_are_checked_and_answered_by_id() {
    let roles = vec![role(1, 2, RoleKind::User, Some(7))];
    assert_eq!(create(&roles, Some(2), row(5, 100, 7, 1)), Ok(row(5, 100, 7, 1)));
    assert_eq!(
        create(&roles, Some(2), row(5, 100, 8, 1)),
        Err(Error::Forbidden(denied(Resource::Products, Action::Create)))
    );
    let stored = vec![row(5, 100, 7, 1), row(3, 100, 7, 2), row(4, 101, 7, 1), row(3, 102, 7, 9)];
    let sorted = create_many(&roles, Some(2), stored).unwrap();
    assert_eq!(sorted.iter().map(|b| b.id).collect::<Vec<i32>>(), vec![3, 3, 4, 5]);
    assert_eq!(sorted.len(), 4);
    assert!(sorted.contains(&row(3, 100, 7, 2)) && sorted.contains(&row(3, 102, 7, 9)));
    assert_eq!(
        create_many(&roles, Some(2), vec![row(5, 100, 7, 1), row(3, 100, 8, 2)]),
        Err(Error::Forbidden(denied(Resource::Products, Action::Create)))
    );
    assert_eq!(create_many(&roles, Some(2), Vec::new()), Ok(Vec::new()));
}

#[test]
fn bindings_of_a_product_are_read_updated_and_deleted() {
    let roles = vec![role(1, 2, RoleKind::User, Some(7))];
    let mut rows = vec![row(1, 100, 7, 1), row(2, 200, 8, 1), row(3, 100, 7, 2), row(4, 100, 7, 1)];
    assert_eq!(get_by_base_product_id(&roles, Some(2), &rows, 100), Ok(vec![rows[0], rows[2], rows[3]]));
    assert_eq!(get_by_base_product_id(&roles, Some(2), &rows, 300), Ok(Vec::new()));
    assert_eq!(
        get_by_base_product_id(&roles, Some(2), &rows, 200),
        Err(Error::Forbidden(denied(Resource::Products, Action::Read)))
    );

    let payload = UpdateProducts { price: Some(42) };
    let changed = update(&roles, Some(2), &mut rows, 100, 1, payload).unwrap();
    assert_eq!(changed, Products { price: Some(42), ..row(1, 100, 7, 1) });
    assert_eq!(rows[0].price, Some(42));
    assert_eq!(rows[3].price, Some(42));
    assert_eq!(rows[2].price, None);
    assert_eq!(rows[1].price, None);
    assert_eq!(update(&roles, Some(2), &mut rows, 100, 9, payload), Err(Error::NotFound));
    assert_eq!(
        update(&roles, Some(2), &mut rows, 200, 1, payload),
        Err(Error::Forbidden(denied(Resource::Products, Action::Update)))
    );
    assert_eq!(rows[1].price, None);

    assert_eq!(
        delete(&roles, Some(2), &mut rows, 200),
        Err(Error::Forbidden(denied(Resource::Products, Action::Delete)))
    );
    assert_eq!(rows.len(), 4);
    let removed = delete(&roles, Some(2), &mut rows, 100).unwrap();
    assert_eq!(removed.iter().map(|b| b.id).collect::<Vec<i32>>(), vec![1, 3, 4]);
    assert_eq!(rows, vec![row(2, 200, 8, 1)]);
}

#[test]
fn bindings_are_paired_with_the_countries_of_their_package() {
    let package = |id: i32, to: &[&str]| Package {
        id,
        name: "p".to_string(),
        max_size: 1,
        max_weight: 1,
        deliveries_to: to.iter().map(|c| c.to_string()).collect(),
    };
    let offering = |id: i32| CompanyPackage { id, company_id: 1, package_id: 1, name: "n".to_string(), currency: "USD".to_string() };
    let joined = vec![
        (row(1, 100, 7, 1), offering(1), package(1, &["CAN", "MEX"])),
        (row(2, 100, 7, 2), offering(2), package(2, &[])),
    ];
    let roles = vec![role(1, 2, RoleKind::User, Some(7))];
    let list = get_products_countries(&roles, Some(2), &joined).unwrap();
    assert_eq!(list.len(), 2);
    assert_eq!(list[0].0, row(1, 100, 7, 1));
    assert_eq!(list[0].1, vec!["CAN".to_string(), "MEX".to_string()]);
    assert_eq!(list[1].0.id, 2);
    assert!(list[1].1.is_empty());
    let read_denied = Error::Forbidden(denied(Resource::Products, Action::Read));
    assert_eq!(get_products_countries(&roles, None, &joined).err(), Some(read_denied));
    assert_eq!(get_products_countries(&Vec::new(), Some(2), &joined).err(), Some(read_denied));
    assert_eq!(get_products_countries(&Vec::new(), Some(2), &Vec::new()).err(), Some(read_denied));
    let other_store = vec![role(1, 2, RoleKind::User, Some(8))];
    assert_eq!(get_products_countries(&other_store, Some(2), &joined).err(), Some(read_denied));
    assert_eq!(get_products_countries(&other_store, Some(2), &Vec::new()).map(|l| l.len()), Ok(0));
}

#[test]
fn a_caller_without_a_role_is_denied_whether_or_not_bindings_exist() {
    let mut rows = vec![row(1, 100, 7, 1)];
    let nobody: Vec<UserRole> = Vec::new();
    let forbidden = |action: Action| Error::Forbidden(denied(Resource::Products, action));
    for caller in [None, Some(2)] {
        assert_eq!(get_by_base_product_id(&nobody, caller, &rows, 100), Err(forbidden(Action::Read)));
        assert_eq!(get_by_base_product_id(&nobody, caller, &rows, 300), Err(forbidden(Action::Read)));
        assert_eq!(delete(&nobody, caller, &mut rows, 300), Err(forbidden(Action::Delete)));
        assert_eq!(delete(&nobody, caller, &mut rows, 100), Err(forbidden(Action::Delete)));
        let payload = UpdateProducts { price: Some(1) };
        assert_eq!(update(&nobody, caller, &mut rows, 300, 1, payload), Err(forbidden(Action::Update)));
        assert_eq!(update(&nobody, caller, &mut rows, 100, 1, payload), Err(forbidden(Action::Update)));
        assert_eq!(create_many(&nobody, caller, Vec::new()), Err(forbidden(Action::Create)));
        assert_eq!(delivery::products::check_at_all(&nobody, caller, Action::Read), Err(forbidden(Action::Read)));
    }
    assert_eq!(rows, vec![row(1, 100, 7, 1)]);
    let owner = vec![role(1, 2, RoleKind::User, Some(7))];
    assert_eq!(delivery::products::check_at_all(&owner, Some(2), Action::Read), Ok(()));
    assert_eq!(delivery::products::check_permitted(&owner, Some(2), Action::Read, &rows), Ok(()));
}

#[test]
fn role_kinds_are_stored_by_name() {
    assert_eq!(delivery::acl::role_kind_of("superuser"), Some(RoleKind::Superuser));
    assert_eq!(delivery::acl::role_kind_of("user"), Some(RoleKind::User));
    assert_eq!(delivery::acl::role_kind_of("User"), None);
    assert_eq!(delivery::acl::role_kind_of(""), None);
    assert_eq!(delivery::acl::role_kind_name(RoleKind::Superuser), "superuser");
    assert_eq!(delivery::acl::role_kind_name(RoleKind::User), "user");
}

#[test]
fn errors_have_their_status() {
    assert_eq!(Error::NotFound.status(), 404);
    assert_eq!(Error::Forbidden(denied(Resource::Products, Action::Read)).status(), 403);
    assert_eq!(Error::Validate.status(), 400);
    assert_eq!(Error::Parse.status(), 400);
    assert_eq!(Error::AmbiguousMatch.status(), 409);
    assert_eq!(Error::NoApplicableRate.status(), 422);
    assert_eq!(Error::Connection.status(), 500);
    assert_eq!(Error::Transaction.status(), 500);
}

#[test]
fn an_update_that_sets_no_price_keeps_the_price() {
    let roles = vec![role(1, 2, RoleKind::User, Some(7))];
    let priced = Products { price: Some(5), ..row(1, 100, 7, 1) };
    let mut rows = vec![priced, row(2, 100, 7, 1), row(3, 100, 7, 2)];
    let kept = update(&roles, Some(2), &mut rows, 100, 1, UpdateProducts { price: None }).unwrap();
    assert_eq!(kept, priced);
    assert_eq!(rows, vec![priced, row(2, 100, 7, 1), row(3, 100, 7, 2)]);
    let set = update(&roles, Some(2), &mut rows, 100, 1, UpdateProducts { price: Some(9) }).unwrap();
    assert_eq!(set, Products { price: Some(9), ..priced });
    assert_eq!(rows[0].price, Some(9));
    assert_eq!(rows[1].price, Some(9));
    assert_eq!(rows[2].price, None);
    assert_eq!(delivery::products::apply(&priced, &UpdateProducts { price: None }), priced);
    assert_eq!(delivery::products::apply(&priced, &UpdateProducts { price: Some(1) }).price, Some(1));
}

#[test]
fn an_update_is_denied_unless_every_binding_of_the_pair_may_be_updated() {
    let roles = vec![role(1, 2, RoleKind::User, Some(7))];
    let mut rows = vec![row(1, 100, 7, 1), row(2, 100, 8, 1), row(3, 100, 7, 2)];
    let before = rows.clone();
    assert_eq!(
        update(&roles, Some(2), &mut rows, 100, 1, UpdateProducts { price: Some(9) }),
        Err(Error::Forbidden(denied(Resource::Products, Action::Update)))
    );
    assert_eq!(rows, before);
    let changed = update(&roles, Some(2), &mut rows, 100, 2, UpdateProducts { price: Some(9) }).unwrap();
    assert_eq!(changed.id, 3);
    assert_eq!(rows[2].price, Some(9));
    assert_eq!(rows[0].price, None);
    let superuser = vec![role(1, 1, RoleKind::Superuser, None)];
    assert!(update(&superuser, Some(1), &mut rows, 100, 1, UpdateProducts { price: Some(4) }).is_ok());
    assert_eq!((rows[0].price, rows[1].price), (Some(4), Some(4)));
}

#[test]
fn located_entities_are_checked_after_the_resource() {
    use_gates();
}

fn use_gates() {
    let address = |id: i32, user_id: i32| delivery::models::UserAddress {
        id,
        user_id,
        country: "RUS".to_string(),
        address: "street".to_string(),
        postal_code: "1".to_string(),
        is_priority: false,
    };
    let roles = vec![role(1, 2, RoleKind::User, Some(2)), role(2, 1, RoleKind::Superuser, None)];
    let refused = |action: Action| Err(Error::Forbidden(denied(Resource::UserAddresses, action)));
    let gate_one = delivery::services::gate_entity::<delivery::models::UserAddress>;
    let gate_all = delivery::services::gate_entities::<delivery::models::UserAddress>;
    assert_eq!(gate_one(&roles, Some(2), Resource::UserAddresses, Action::Update, &address(1, 2)), Ok(()));
    assert_eq!(gate_one(&roles, Some(2), Resource::UserAddresses, Action::Update, &address(1, 3)), refused(Action::Update));
    assert_eq!(gate_one(&roles, Some(1), Resource::UserAddresses, Action::Delete, &address(1, 3)), Ok(()));
    assert_eq!(gate_one(&roles, None, Resource::UserAddresses, Action::Read, &address(1, 2)), refused(Action::Read));
    assert_eq!(gate_all(&roles, Some(2), Resource::UserAddresses, Action::Read, &vec![address(1, 2), address(2, 2)]), Ok(()));
    assert_eq!(gate_all(&roles, Some(2), Resource::UserAddresses, Action::Read, &vec![address(1, 2), address(2, 3)]), refused(Action::Read));
    assert_eq!(gate_all(&roles, Some(2), Resource::UserAddresses, Action::Read, &Vec::new()), Ok(()));
    assert_eq!(gate_all(&roles, Some(5), Resource::UserAddresses, Action::Read, &Vec::new()), refused(Action::Read));
    assert_eq!(gate_all(&roles, None, Resource::UserAddresses, Action::Read, &Vec::new()), refused(Action::Read));
    assert_eq!(delivery::services::found(Some(3)), Ok(3));
    assert_eq!(delivery::services::found::<i32>(None), Err(Error::NotFound));
    assert_eq!(
        delivery::services::gate(&roles, Some(2), Resource::UserRoles, Action::Read),
        Err(Error::Forbidden(denied(Resource::UserRoles, Action::Read)))
    );
    assert_eq!(delivery::services::gate(&roles, Some(1), Resource::UserRoles, Action::Delete), Ok(()));
}
