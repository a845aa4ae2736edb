//! Access control: which roles may perform which action on which resource,
//! and whether the caller owns the entity an `Owned` rule is checked against.

use vstd::prelude::*;
use vstd::string::*;
use crate::errors::Error;
use crate::text::{chars_of, spells};

verus! {

/// The kinds of entity that access is controlled for.
#[derive(Clone, Copy, Debug, PartialEq, Eq, Structural)]
pub enum Resource {
    Companies,
    CompaniesPackages,
    Countries,
    Packages,
    Pickups,
    Products,
    ShippingRates,
    UserAddresses,
    UserRoles,
}

/// What a caller wants to do with an entity.
#[derive(Clone, Copy, Debug, PartialEq, Eq, Structural)]
pub enum Action {
    Create,
    Read,
    Update,
    Delete,
}

/// How far a permission reaches: every entity, or only those the caller owns.
#[derive(Clone, Copy, Debug, PartialEq, Eq, Structural)]
pub enum Scope {
    All,
    Owned,
}

/// The role kinds a user can hold.
#[derive(Clone, Copy, Debug, PartialEq, Eq, Structural)]
pub enum RoleKind {
    Superuser,
    User,
}

/// One role of one user. `data` is the ownership datum the role is scoped
/// to (the id of the store the user manages), if any.
#[derive(Clone, Copy, Debug, PartialEq, Eq)]
pub struct UserRole {
    pub id: u128,
    pub user_id: i32,
    pub name: RoleKind,
    pub data: Option<i32>,
}

/// Authorization was denied for this resource and action.
#[derive(Clone, Copy, Debug, PartialEq, Eq, Structural)]
pub struct Forbidden {
    pub resource: Resource,
    pub action: Action,
}

/// An entity that may belong to somebody: its ownership key is what a
/// role's datum must equal for the role's holder to own it.
pub trait Ownership {
    spec fn owner_key_spec(&self) -> Option<i32>;

    fn owner_key(&self) -> (key: Option<i32>)
        ensures
            key == self.owner_key_spec(),
    ;
}

/// The rule table. The scope that a role kind is granted for an action on a
/// resource; `None` where the combination is not listed, which denies it.
pub open spec fn granted_scope(role: RoleKind, resource: Resource, action: Action) -> Option<Scope> {
    match role {
        RoleKind::Superuser => Some(Scope::All),
        RoleKind::User => match resource {
            Resource::Products | Resource::UserAddresses => Some(Scope::Owned),
            Resource::UserRoles => None,
            Resource::Companies
            | Resource::CompaniesPackages
            | Resource::Countries
            | Resource::Packages
            | Resource::Pickups
            | Resource::ShippingRates => if action == Action::Read {
                Some(Scope::All)
            } else {
                None
            },
        },
    }
}

/// What a caller without identity may do: read the public catalog.
pub open spec fn anonymous_allowed(resource: Resource, action: Action) -> bool {
    action == Action::Read && (resource == Resource::Companies || resource
        == Resource::CompaniesPackages || resource == Resource::Countries || resource
        == Resource::Packages || resource == Resource::ShippingRates)
}

/// Some role of the user carries `key` as its datum.
pub open spec fn holds_datum(roles: Seq<UserRole>, user_id: i32, key: i32) -> bool {
    exists|i: int|
        0 <= i < roles.len() && (#[trigger] roles[i]).user_id == user_id && roles[i].data == Some(
            key,
        )
}

/// Whether an entity with the given ownership key is within `scope` for the
/// user. `target` is `None` when no entity has been located yet: an `Owned`
/// rule then passes, and the query that follows filters by ownership.
pub open spec fn in_scope(
    roles: Seq<UserRole>,
    user_id: i32,
    scope: Scope,
    target: Option<Option<i32>>,
) -> bool {
    match scope {
        Scope::All => true,
        Scope::Owned => match target {
            None => true,
            Some(None) => false,
            Some(Some(key)) => holds_datum(roles, user_id, key),
        },
    }
}

/// The role at position `i` is one of the user's and lets them through.
pub open spec fn role_permits(
    roles: Seq<UserRole>,
    user_id: i32,
    resource: Resource,
    action: Action,
    target: Option<Option<i32>>,
    i: int,
) -> bool {
    &&& 0 <= i < roles.len()
    &&& roles[i].user_id == user_id
    &&& granted_scope(roles[i].name, resource, action) matches Some(scope)
    &&& in_scope(roles, user_id, scope, target)
}

/// One of the user's roles lets them through.
pub open spec fn some_role_permits(
    roles: Seq<UserRole>,
    user_id: i32,
    resource: Resource,
    action: Action,
    target: Option<Option<i32>>,
) -> bool {
    exists|i: int| #[trigger] role_permits(roles, user_id, resource, action, target, i)
}

/// The access rule: an anonymous caller gets what is open to everybody; an
/// identified caller needs one role whose table entry covers the request.
pub open spec fn allowed(
    roles: Seq<UserRole>,
    caller: Option<i32>,
    resource: Resource,
    action: Action,
    target: Option<Option<i32>>,
) -> bool {
    match caller {
        None => anonymous_allowed(resource, action),
        Some(user_id) => some_role_permits(roles, user_id, resource, action, target),
    }
}

/// The role kind a stored name denotes: `superuser` or `user`.
pub open spec fn role_kind_named(name: Seq<char>) -> Option<RoleKind> {
    if name == "superuser"@ {
        Some(RoleKind::Superuser)
    } else if name == "user"@ {
        Some(RoleKind::User)
    } else {
        None
    }
}

/// Reads a role kind from the name it is stored under.
pub fn role_kind_of(name: &str) -> (kind: Option<RoleKind>)
    ensures
        kind == role_kind_named(name@),
{
    let chars = chars_of(name);
    assert(chars@.subrange(0, chars@.len() as int) =~= name@);
    if spells(&chars, 0, chars.len(), "superuser") {
        Some(RoleKind::Superuser)
    } else if spells(&chars, 0, chars.len(), "user") {
        Some(RoleKind::User)
    } else {
        None
    }
}

/// The name a role kind is stored under.
pub fn role_kind_name(kind: RoleKind) -> (name: &'static str)
    ensures
        role_kind_named(name@) == Some(kind),
{
    proof {
        reveal_strlit("superuser");
        reveal_strlit("user");
        assert("superuser"@.len() == 9 && "user"@.len() == 4);
    }
    match kind {
        RoleKind::Superuser => "superuser",
        RoleKind::User => "user",
    }
}

/// The roles a request is decided with, given what the role lookup gave: a
/// lookup that failed counts as no roles, so the request is then decided as
/// for a caller who holds none.
pub fn roles_found(lookup: Result<Vec<UserRole>, Error>) -> (roles: Vec<UserRole>)
    ensures
        roles@ == match lookup {
            Ok(found) => found@,
            Err(_) => Seq::<UserRole>::empty(),
        },
{
    match lookup {
        Ok(found) => found,
        Err(_) => Vec::new(),
    }
}

/// Looks up the rule table.
pub fn required_scope(role: RoleKind, resource: Resource, action: Action) -> (scope: Option<Scope>)
    ensures
        scope == granted_scope(role, resource, action),
{
    match role {
        RoleKind::Superuser => Some(Scope::All),
        RoleKind::User => match resource {
            Resource::Products | Resource::UserAddresses => Some(Scope::Owned),
            Resource::UserRoles => None,
            _ => match action {
                Action::Read => Some(Scope::All),
                _ => None,
            },
        },
    }
}

/// Whether an anonymous caller may perform the action.
pub fn anonymous_may(resource: Resource, action: Action) -> (ok: bool)
    ensures
        ok == anonymous_allowed(resource, action),
{
    match action {
        Action::Read => match resource {
            Resource::Companies
            | Resource::CompaniesPackages
            | Resource::Countries
            | Resource::Packages
            | Resource::ShippingRates => true,
            _ => false,
        },
        _ => false,
    }
}

/// Whether one of the user's roles carries `key` as its datum.
pub fn user_holds_datum(roles: &Vec<UserRole>, user_id: i32, key: i32) -> (held: bool)
    ensures
        held == holds_datum(roles@, user_id, key),
{
    let mut i: usize = 0;
    while i < roles.len()
        invariant
            0 <= i <= roles.len(),
            forall|j: int|
                0 <= j < i ==> !((#[trigger] roles@[j]).user_id == user_id && roles@[j].data
                    == Some(key)),
        decreases roles.len() - i,
    {
        let role = roles[i];
        if role.user_id == user_id {
            match role.data {
                Some(d) => {
                    if d == key {
                        return true;
                    }
                },
                None => {},
            }
        }
        i += 1;
    }
    false
}

/// Turns an optional entity into what the rules look at: `None` for no
/// entity, otherwise the entity's ownership key.
pub open spec fn target_key<E: Ownership>(obj: Option<&E>) -> Option<Option<i32>> {
    match obj {
        None => None,
        Some(e) => Some(e.owner_key_spec()),
    }
}

/// The scope check of an access rule against the roles found for the user.
pub fn is_in_scope<E: Ownership>(
    roles: &Vec<UserRole>,
    user_id: i32,
    scope: &Scope,
    obj: Option<&E>,
) -> (ok: bool)
    ensures
        ok == in_scope(roles@, user_id, *scope, target_key(obj)),
{
    match *scope {
        Scope::All => true,
        Scope::Owned => match obj {
            None => true,
            Some(e) => match e.owner_key() {
                None => false,
                Some(key) => user_holds_datum(roles, user_id, key),
            },
        },
    }
}

/// Decides a request. `roles` is what the role lookup returned for this
/// call (empty when the lookup failed); `caller` is absent for an anonymous
/// request; `target` is the entity acted on, once one has been located.
pub fn authorize<E: Ownership>(
    roles: &Vec<UserRole>,
    caller: Option<i32>,
    resource: Resource,
    action: Action,
    target: Option<&E>,
) -> (r: Result<(), Forbidden>)
    ensures
        r is Ok <==> allowed(roles@, caller, resource, action, target_key(target)),
        r matches Err(e) ==> e == (Forbidden { resource, action }),
{
    let denied = Forbidden { resource, action };
    match caller {
        None => {
            if anonymous_may(resource, action) {
                Ok(())
            } else {
                Err(denied)
            }
        },
        Some(user_id) => {
            let ghost key = target_key(target);
            let mut i: usize = 0;
            while i < roles.len()
                invariant
                    0 <= i <= roles.len(),
                    caller == Some(user_id),
                    key == target_key(target),
                    forall|j: int|
                        0 <= j < i ==> !#[trigger] role_permits(
                            roles@,
                            user_id,
                            resource,
                            action,
                            key,
                            j,
                        ),
                decreases roles.len() - i,
            {
                let role = roles[i];
                if role.user_id == user_id {
                    match required_scope(role.name, resource, action) {
                        Some(scope) => {
                            if is_in_scope(roles, user_id, &scope, target) {
                                assert(role_permits(roles@, user_id, resource, action, key, i as int));
                                return Ok(());
                            }
                        },
                        None => {},
                    }
                }
                i += 1;
            }
            Err(denied)
        },
    }
}

/// A caller none of whose roles is granted the action on the resource is
/// denied, whether or not a target entity exists and whatever it is.
pub proof fn lemma_no_granting_role_is_denied(
    roles: Seq<UserRole>,
    user_id: i32,
    resource: Resource,
    action: Action,
    target: Option<Option<i32>>,
)
    requires
        forall|i: int|
            0 <= i < roles.len() && (#[trigger] roles[i]).user_id == user_id ==> granted_scope(
                roles[i].name,
                resource,
                action,
            ) is None,
    ensures
        !allowed(roles, Some(user_id), resource, action, target),
{
    assert forall|i: int| !#[trigger] role_permits(roles, user_id, resource, action, target, i) by {
        if 0 <= i < roles.len() && roles[i].user_id == user_id {
            assert(granted_scope(roles[i].name, resource, action) is None);
        }
    }
}

/// A caller whose granting roles are all `Owned`-scoped is approved for a
/// located target exactly when one of their roles carries the target's
/// ownership key as its datum: a differing datum denies, a matching one
/// approves.
pub proof fn lemma_owned_scope_follows_datum(
    roles: Seq<UserRole>,
    user_id: i32,
    resource: Resource,
    action: Action,
    key: i32,
    k: int,
)
    requires
        0 <= k < roles.len(),
        roles[k].user_id == user_id,
        granted_scope(roles[k].name, resource, action) == Some(Scope::Owned),
        forall|i: int|
            0 <= i < roles.len() && (#[trigger] roles[i]).user_id == user_id ==> granted_scope(
                roles[i].name,
                resource,
                action,
            ) != Some(Scope::All),
    ensures
        allowed(roles, Some(user_id), resource, action, Some(Some(key))) <==> holds_datum(
            roles,
            user_id,
            key,
        ),
        allowed(roles, Some(user_id), resource, action, Some(None)) == false,
{
    let target = Some(Some(key));
    if holds_datum(roles, user_id, key) {
        assert(role_permits(roles, user_id, resource, action, target, k));
    }
    if allowed(roles, Some(user_id), resource, action, target) {
        let i = choose|i: int| #[trigger] role_permits(roles, user_id, resource, action, target, i);
        assert(granted_scope(roles[i].name, resource, action) == Some(Scope::Owned));
    }
    assert forall|i: int| !#[trigger] role_permits(roles, user_id, resource, action, Some(None), i) by {
        if 0 <= i < roles.len() && roles[i].user_id == user_id {
            assert(granted_scope(roles[i].name, resource, action) != Some(Scope::All));
        }
    }
}

} // verus!
