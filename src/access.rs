//! Tiered access control: the permission catalog (roles, their permissions, and
//! who holds which role globally or on one resource) and the resolver that
//! decides a permission check tier by tier.
use vstd::prelude::*;

use crate::nutty_id::b58_padded;
use crate::nutty_id::spells;
use crate::nutty_id::is_id_text;
use crate::nutty_id::NuttyId;
use crate::nutty_id::SHORT_ID_MODULUS;
use crate::push_chars;
use crate::string_from_chars;

verus! {

/// A permission that can be granted to roles.
#[derive(Debug, Clone)]
pub struct Permission {
    pub name: String,
    pub description: String,
}

/// A role that groups permissions together.
#[derive(Debug, Clone)]
pub struct Role {
    pub name: String,
    pub description: String,
}

/// A role carries a permission.
#[derive(Debug)]
pub struct RolePermission {
    pub role_name: String,
    pub permission_name: String,
}

/// A navigator holds a role globally.
#[derive(Debug)]
pub struct NavigatorRole {
    pub navigator_id: NuttyId,
    pub role_name: String,
}

/// A navigator (or, without one, anybody) holds a role on one resource.
#[derive(Debug)]
pub struct ResourceRole {
    pub navigator_id: Option<NuttyId>,
    pub role_name: String,
    pub resource_type: String,
    pub resource_id: NuttyId,
}

impl Clone for RolePermission {
    fn clone(&self) -> (r: Self)
        ensures
            r == *self,
    {
        RolePermission {
            role_name: self.role_name.clone(),
            permission_name: self.permission_name.clone(),
        }
    }
}

impl Clone for NavigatorRole {
    fn clone(&self) -> (r: Self)
        ensures
            r == *self,
    {
        NavigatorRole { navigator_id: self.navigator_id, role_name: self.role_name.clone() }
    }
}

impl Clone for ResourceRole {
    fn clone(&self) -> (r: Self)
        ensures
            r == *self,
    {
        ResourceRole {
            navigator_id: self.navigator_id,
            role_name: self.role_name.clone(),
            resource_type: self.resource_type.clone(),
            resource_id: self.resource_id,
        }
    }
}

impl ResourceRole {
    /// The role held.
    pub fn role_name(&self) -> (r: &str)
        ensures
            r@ == self.role_name@,
    {
        self.role_name.as_str()
    }

    /// The resource the role is held on.
    pub fn resource_id(&self) -> (r: &NuttyId)
        ensures
            *r == self.resource_id,
    {
        &self.resource_id
    }
}

/// How a check ended: granted through a global role, a role on the resource,
/// ownership of the resource, or denied.
#[derive(Debug, Clone, Copy, PartialEq, Eq, Structural)]
pub enum PermissionResult {
    GrantedGlobal,
    GrantedResource,
    GrantedOwnership,
    Denied,
}

impl PermissionResult {
    /// Every result but `Denied` grants.
    pub open spec fn grants(self) -> bool {
        !(self is Denied)
    }

    /// Whether the result grants access.
    pub fn is_granted(&self) -> (r: bool)
        ensures
            r == self.grants(),
    {
        match self {
            PermissionResult::Denied => false,
            _ => true,
        }
    }
}

/// Errors of permission-check construction.
#[derive(Debug, Clone, PartialEq, Eq)]
pub enum PermissionCheckError {
    /// No permission was given.
    MissingPermission,
}

/// Errors of the access service.
#[derive(Debug, Clone, PartialEq, Eq)]
pub enum AccessServiceError {
    /// The check could not be built.
    PermissionCheck(PermissionCheckError),
    /// A required permission was not granted.
    PermissionDenied { navigator_id: Option<String>, permission: String, resource: Option<String> },
    /// No catalog entry names the role.
    UnknownRole(String),
}

/// A permission check: who asks, for what, and on which resource if any.
#[derive(Debug, Clone)]
pub struct PermissionCheck {
    navigator_id: Option<NuttyId>,
    permission: String,
    resource_type: Option<String>,
    resource_id: Option<NuttyId>,
}

/// The text of an optional string.
pub open spec fn opt_text(s: Option<String>) -> Option<Seq<char>> {
    match s {
        Some(t) => Some(t@),
        None => None,
    }
}

impl PermissionCheck {
    /// The navigator who asks, if any.
    pub closed spec fn spec_navigator_id(&self) -> Option<NuttyId> {
        self.navigator_id
    }

    /// The permission asked for.
    pub closed spec fn spec_permission(&self) -> Seq<char> {
        self.permission@
    }

    /// The type of the resource, if any.
    pub closed spec fn spec_resource_type(&self) -> Option<Seq<char>> {
        opt_text(self.resource_type)
    }

    /// The resource, if any.
    pub closed spec fn spec_resource_id(&self) -> Option<NuttyId> {
        self.resource_id
    }

    /// A builder with nothing set.
    pub fn builder() -> (r: PermissionCheckBuilder)
        ensures
            r.navigator_id is None,
            r.permission is None,
            r.resource_type is None,
            r.resource_id is None,
    {
        PermissionCheckBuilder {
            navigator_id: None,
            permission: None,
            resource_type: None,
            resource_id: None,
        }
    }

    /// The navigator who asks, if any.
    pub fn navigator_id(&self) -> (r: Option<&NuttyId>)
        ensures
            r matches Some(n) ==> self.spec_navigator_id() == Some(*n),
            r is None ==> self.spec_navigator_id() is None,
    {
        match &self.navigator_id {
            Some(n) => Some(n),
            None => None,
        }
    }

    /// The permission asked for.
    pub fn permission(&self) -> (r: &str)
        ensures
            r@ == self.spec_permission(),
    {
        self.permission.as_str()
    }

    /// The type of the resource, if any.
    pub fn resource_type(&self) -> (r: Option<&str>)
        ensures
            r matches Some(t) ==> self.spec_resource_type() == Some(t@),
            r is None ==> self.spec_resource_type() is None,
    {
        match &self.resource_type {
            Some(t) => Some(t.as_str()),
            None => None,
        }
    }

    /// The resource, if any.
    pub fn resource_id(&self) -> (r: Option<&NuttyId>)
        ensures
            r matches Some(n) ==> self.spec_resource_id() == Some(*n),
            r is None ==> self.spec_resource_id() is None,
    {
        match &self.resource_id {
            Some(n) => Some(n),
            None => None,
        }
    }
}

/// Collects the parts of a permission check; the permission is required.
#[derive(Debug, Clone)]
pub struct PermissionCheckBuilder {
    pub navigator_id: Option<NuttyId>,
    pub permission: Option<String>,
    pub resource_type: Option<String>,
    pub resource_id: Option<NuttyId>,
}

impl PermissionCheckBuilder {
    /// Sets who asks.
    pub fn navigator(self, navigator_id: NuttyId) -> (r: Self)
        ensures
            r.navigator_id == Some(navigator_id),
            r.permission == self.permission,
            r.resource_type == self.resource_type,
            r.resource_id == self.resource_id,
    {
        PermissionCheckBuilder { navigator_id: Some(navigator_id), ..self }
    }

    /// Sets the permission asked for.
    pub fn permission(self, permission: String) -> (r: Self)
        ensures
            r.navigator_id == self.navigator_id,
            r.permission == Some(permission),
            r.resource_type == self.resource_type,
            r.resource_id == self.resource_id,
    {
        PermissionCheckBuilder { permission: Some(permission), ..self }
    }

    /// Sets the resource the check is about.
    pub fn resource(self, resource_type: String, resource_id: NuttyId) -> (r: Self)
        ensures
            r.navigator_id == self.navigator_id,
            r.permission == self.permission,
            r.resource_type == Some(resource_type),
            r.resource_id == Some(resource_id),
    {
        PermissionCheckBuilder {
            resource_type: Some(resource_type),
            resource_id: Some(resource_id),
            ..self
        }
    }

    /// The check, or `MissingPermission` when no permission was set.
    pub fn try_build(self) -> (r: Result<PermissionCheck, PermissionCheckError>)
        ensures
            self.permission is None ==> r == Err::<PermissionCheck, _>(
                PermissionCheckError::MissingPermission,
            ),
            self.permission matches Some(p) ==> (r matches Ok(c) && c.spec_navigator_id()
                == self.navigator_id && c.spec_permission() == p@ && c.spec_resource_type()
                == opt_text(self.resource_type) && c.spec_resource_id() == self.resource_id),
    {
        match self.permission {
            Some(permission) => Ok(
                PermissionCheck {
                    navigator_id: self.navigator_id,
                    permission,
                    resource_type: self.resource_type,
                    resource_id: self.resource_id,
                },
            ),
            None => Err(PermissionCheckError::MissingPermission),
        }
    }
}

/// Some entry of `rp` gives `role` the permission `perm`.
pub open spec fn role_grants(rp: Seq<RolePermission>, role: Seq<char>, perm: Seq<char>) -> bool {
    exists|j: int| 0 <= j < rp.len() && #[trigger] rp[j].role_name@ == role && rp[j].permission_name@ == perm
}

/// Whether `perm` ends with the ownership suffix `:own`.
pub open spec fn is_own_permission(perm: Seq<char>) -> bool {
    perm.len() >= 4 && perm.subrange(perm.len() - 4, perm.len() as int) == seq![':', 'o', 'w', 'n']
}

/// The permission catalog: which role carries which permission, and who holds
/// which role, globally or on a resource.
pub struct AccessCatalog {
    role_permissions: Vec<RolePermission>,
    navigator_roles: Vec<NavigatorRole>,
    resource_roles: Vec<ResourceRole>,
}

impl AccessCatalog {
    /// The role-to-permission entries.
    pub closed spec fn role_permissions(&self) -> Seq<RolePermission> {
        self.role_permissions@
    }

    /// The global role assignments.
    pub closed spec fn navigator_roles(&self) -> Seq<NavigatorRole> {
        self.navigator_roles@
    }

    /// The resource role assignments.
    pub closed spec fn resource_roles(&self) -> Seq<ResourceRole> {
        self.resource_roles@
    }

    /// Every role held, globally or on a resource, is named by a catalog entry.
    pub open spec fn wf(&self) -> bool {
        &&& forall|i: int|
            0 <= i < self.navigator_roles().len() ==> role_known(
                self.role_permissions(),
                (#[trigger] self.navigator_roles()[i]).role_name@,
            )
        &&& forall|i: int|
            0 <= i < self.resource_roles().len() ==> role_known(
                self.role_permissions(),
                (#[trigger] self.resource_roles()[i]).role_name@,
            )
    }

    /// A global role of `nav` carries `perm`.
    pub open spec fn global_grant(&self, nav: NuttyId, perm: Seq<char>) -> bool {
        exists|i: int|
            0 <= i < self.navigator_roles().len() && #[trigger] self.navigator_roles()[i].navigator_id
                == nav && role_grants(
                self.role_permissions(),
                self.navigator_roles()[i].role_name@,
                perm,
            )
    }

    /// A role of `nav` on exactly the resource (`rtype`, `rid`) carries `perm`.
    pub open spec fn resource_grant(
        &self,
        nav: NuttyId,
        perm: Seq<char>,
        rtype: Seq<char>,
        rid: NuttyId,
    ) -> bool {
        exists|i: int|
            0 <= i < self.resource_roles().len() && #[trigger] self.resource_roles()[i].navigator_id
                == Some(nav) && self.resource_roles()[i].resource_type@ == rtype
                && self.resource_roles()[i].resource_id == rid && role_grants(
                self.role_permissions(),
                self.resource_roles()[i].role_name@,
                perm,
            )
    }

    /// The decision for a check, `owner` being the recorded owner of its resource:
    /// no navigator denies; then global roles (for tokens other than `:own`
    /// ones), roles on the resource, and for an `:own` permission held globally,
    /// ownership of the resource; otherwise denied. An `:own` permission held
    /// globally thus grants only on resources the navigator owns.
    pub open spec fn resolve(
        &self,
        nav: Option<NuttyId>,
        perm: Seq<char>,
        rtype: Option<Seq<char>>,
        rid: Option<NuttyId>,
        owner: Option<NuttyId>,
    ) -> PermissionResult {
        match nav {
            None => PermissionResult::Denied,
            Some(n) => if !is_own_permission(perm) && self.global_grant(n, perm) {
                PermissionResult::GrantedGlobal
            } else if rtype is Some && rid is Some && self.resource_grant(
                n,
                perm,
                rtype->0,
                rid->0,
            ) {
                PermissionResult::GrantedResource
            } else if rtype is Some && rid is Some && is_own_permission(perm) && self.global_grant(
                n,
                perm,
            ) && owner == Some(n) {
                PermissionResult::GrantedOwnership
            } else {
                PermissionResult::Denied
            },
        }
    }

    /// Tier-2 checks on each ancestor in turn, nearest first, up to the first grant.
    pub open spec fn cascade(
        &self,
        nav: NuttyId,
        perm: Seq<char>,
        rtype: Seq<char>,
        ancestors: Seq<NuttyId>,
    ) -> PermissionResult
        decreases ancestors.len(),
    {
        if ancestors.len() == 0 {
            PermissionResult::Denied
        } else if self.resource_grant(nav, perm, rtype, ancestors[0]) {
            PermissionResult::GrantedResource
        } else {
            self.cascade(nav, perm, rtype, ancestors.skip(1))
        }
    }

    /// A catalog with the given role-to-permission entries and no assignments.
    pub fn new(role_permissions: Vec<RolePermission>) -> (r: Self)
        ensures
            r.wf(),
            r.role_permissions() == role_permissions@,
            r.navigator_roles().len() == 0,
            r.resource_roles().len() == 0,
    {
        AccessCatalog { role_permissions, navigator_roles: Vec::new(), resource_roles: Vec::new() }
    }

    /// Whether `role` carries `perm`.
    fn role_has(&self, role: &String, perm: &String) -> (r: bool)
        ensures
            r == role_grants(self.role_permissions(), role@, perm@),
    {
        let mut j: usize = 0;
        while j < self.role_permissions.len()
            invariant
                j <= self.role_permissions@.len(),
                forall|k: int|
                    0 <= k < j ==> !(#[trigger] self.role_permissions@[k].role_name@ == role@
                        && self.role_permissions@[k].permission_name@ == perm@),
            decreases self.role_permissions@.len() - j,
        {
            let e = &self.role_permissions[j];
            if e.role_name == *role && e.permission_name == *perm {
                return true;
            }
            j = j + 1;
        }
        false
    }

    /// Whether a global role of `nav` carries `perm`.
    pub fn has_global_permission(&self, nav: NuttyId, perm: &String) -> (r: bool)
        ensures
            r == self.global_grant(nav, perm@),
    {
        let mut i: usize = 0;
        while i < self.navigator_roles.len()
            invariant
                i <= self.navigator_roles@.len(),
                forall|k: int|
                    0 <= k < i ==> !(#[trigger] self.navigator_roles@[k].navigator_id == nav
                        && role_grants(
                        self.role_permissions(),
                        self.navigator_roles@[k].role_name@,
                        perm@,
                    )),
            decreases self.navigator_roles@.len() - i,
        {
            let a = &self.navigator_roles[i];
            if a.navigator_id == nav && self.role_has(&a.role_name, perm) {
                assert(self.navigator_roles()[i as int].navigator_id == nav);
                return true;
            }
            i = i + 1;
        }
        false
    }

    /// Whether a role of `nav` on exactly the resource (`rtype`, `rid`) carries `perm`.
    pub fn has_resource_permission(
        &self,
        nav: NuttyId,
        perm: &String,
        rtype: &String,
        rid: NuttyId,
    ) -> (r: bool)
        ensures
            r == self.resource_grant(nav, perm@, rtype@, rid),
    {
        let mut i: usize = 0;
        while i < self.resource_roles.len()
            invariant
                i <= self.resource_roles@.len(),
                forall|k: int|
                    0 <= k < i ==> !(#[trigger] self.resource_roles@[k].navigator_id == Some(nav)
                        && self.resource_roles@[k].resource_type@ == rtype@
                        && self.resource_roles@[k].resource_id == rid && role_grants(
                        self.role_permissions(),
                        self.resource_roles@[k].role_name@,
                        perm@,
                    )),
            decreases self.resource_roles@.len() - i,
        {
            let a = &self.resource_roles[i];
            let same_nav = match a.navigator_id {
                Some(n) => n == nav,
                None => false,
            };
            if same_nav && a.resource_type == *rtype && a.resource_id == rid && self.role_has(
                &a.role_name,
                perm,
            ) {
                return true;
            }
            i = i + 1;
        }
        false
    }

    /// Decides `check`, `owner` being the recorded owner of its resource.
    pub fn check_permission(&self, check: &PermissionCheck, owner: Option<NuttyId>) -> (r:
        PermissionResult)
        ensures
            r == self.resolve(
                check.spec_navigator_id(),
                check.spec_permission(),
                check.spec_resource_type(),
                check.spec_resource_id(),
                owner,
            ),
    {
        let nav = match check.navigator_id {
            Some(n) => n,
            None => {
                return PermissionResult::Denied;
            },
        };
        let own = ends_with_own(check.permission.as_str());
        if !own && self.has_global_permission(nav, &check.permission) {
            return PermissionResult::GrantedGlobal;
        }
        match (&check.resource_type, check.resource_id) {
            (Some(rtype), Some(rid)) => {
                if self.has_resource_permission(nav, &check.permission, rtype, rid) {
                    return PermissionResult::GrantedResource;
                }
                let is_owner = match owner {
                    Some(o) => o == nav,
                    None => false,
                };
                if own && is_owner && self.has_global_permission(nav, &check.permission) {
                    return PermissionResult::GrantedOwnership;
                }
                PermissionResult::Denied
            },
            _ => PermissionResult::Denied,
        }
    }

    /// Whether `check` is granted.
    pub fn can(&self, check: &PermissionCheck, owner: Option<NuttyId>) -> (r: bool)
        ensures
            r == self.resolve(
                check.spec_navigator_id(),
                check.spec_permission(),
                check.spec_resource_type(),
                check.spec_resource_id(),
                owner,
            ).grants(),
    {
        self.check_permission(check, owner).is_granted()
    }

    /// Gives `nav` the global role `role`, named by some catalog entry or not;
    /// granting a held role changes nothing.
    fn assign_global_role(&mut self, nav: NuttyId, role: &str)
        ensures
            final(self).role_permissions() == old(self).role_permissions(),
            final(self).resource_roles() == old(self).resource_roles(),
            holds_global_role(old(self).navigator_roles(), nav, role@) ==> final(self).navigator_roles() == old(self).navigator_roles(),
            !holds_global_role(old(self).navigator_roles(), nav, role@) ==> final(self).navigator_roles().len() == old(self).navigator_roles().len() + 1 && final(self).navigator_roles().drop_last() == old(self).navigator_roles() && final(self).navigator_roles().last().navigator_id == nav && final(self).navigator_roles().last().role_name@ == role@,
    {
        let wanted = role.to_owned();
        assert(wanted@ == role@);
        let mut i: usize = 0;
        while i < self.navigator_roles.len()
            invariant
                wanted@ == role@,
                i <= self.navigator_roles@.len(),
                forall|k: int|
                    0 <= k < i ==> !(#[trigger] self.navigator_roles@[k].navigator_id == nav
                        && self.navigator_roles@[k].role_name@ == wanted@),
            decreases self.navigator_roles@.len() - i,
        {
            let a = &self.navigator_roles[i];
            if a.navigator_id == nav && a.role_name == wanted {
                assert(old(self).navigator_roles()[i as int].navigator_id == nav);
                assert(old(self).navigator_roles()[i as int].role_name@ == role@);
                assert(holds_global_role(old(self).navigator_roles(), nav, role@));
                return;
            }
            i = i + 1;
        }
        self.navigator_roles.push(NavigatorRole { navigator_id: nav, role_name: wanted });
        assert(self.navigator_roles@.drop_last() =~= old(self).navigator_roles@);
    }

    /// Whether some catalog entry names the role `role`.
    pub fn role_is_known(&self, role: &str) -> (r: bool)
        ensures
            r == role_known(self.role_permissions(), role@),
    {
        let wanted = role.to_owned();
        let mut j: usize = 0;
        while j < self.role_permissions.len()
            invariant
                wanted@ == role@,
                j <= self.role_permissions@.len(),
                forall|k: int| 0 <= k < j ==> (#[trigger] self.role_permissions@[k]).role_name@ != role@,
            decreases self.role_permissions@.len() - j,
        {
            if self.role_permissions[j].role_name == wanted {
                assert(self.role_permissions()[j as int].role_name@ == role@);
                return true;
            }
            j = j + 1;
        }
        false
    }

    /// Gives `nav` the global role `role`. A role that no catalog entry names is
    /// refused with `UnknownRole`; granting a held role changes nothing.
    pub fn grant_global_role(&mut self, nav: NuttyId, role: &str) -> (r: Result<(), AccessServiceError>)
        requires
            old(self).wf(),
        ensures
            final(self).wf(),
            r is Ok <==> role_known(old(self).role_permissions(), role@),
            r matches Err(e) ==> (e matches AccessServiceError::UnknownRole(t) && t@ == role@),
            final(self).role_permissions() == old(self).role_permissions(),
            final(self).resource_roles() == old(self).resource_roles(),
            holds_global_role(old(self).navigator_roles(), nav, role@) ==> r is Ok,
            r is Err || holds_global_role(old(self).navigator_roles(), nav, role@) ==> final(self).navigator_roles() == old(self).navigator_roles(),
            r is Ok && !holds_global_role(old(self).navigator_roles(), nav, role@) ==> final(self).navigator_roles().len() == old(self).navigator_roles().len() + 1 && final(self).navigator_roles().drop_last() == old(self).navigator_roles() && final(self).navigator_roles().last().navigator_id == nav && final(self).navigator_roles().last().role_name@ == role@,
    {
        if !self.role_is_known(role) {
            return Err(AccessServiceError::UnknownRole(role.to_owned()));
        }
        self.assign_global_role(nav, role);
        proof {
            assert forall|i: int| 0 <= i < self.navigator_roles().len() implies role_known(
                self.role_permissions(),
                (#[trigger] self.navigator_roles()[i]).role_name@,
            ) by {
                if i < old(self).navigator_roles().len() && self.navigator_roles().len()
                    > old(self).navigator_roles().len() {
                    assert(self.navigator_roles().drop_last()[i] == self.navigator_roles()[i]);
                }
            }
        }
        Ok(())
    }

    /// Gives `nav` the role `role` on the resource (`rtype`, `rid`). A role that
    /// no catalog entry names is refused with `UnknownRole`; granting a held role
    /// changes nothing.
    pub fn grant_resource_role(&mut self, nav: NuttyId, role: &str, rtype: &str, rid: NuttyId) -> (r: Result<(), AccessServiceError>)
        requires
            old(self).wf(),
        ensures
            final(self).wf(),
            r is Ok <==> role_known(old(self).role_permissions(), role@),
            r matches Err(e) ==> (e matches AccessServiceError::UnknownRole(t) && t@ == role@),
            final(self).role_permissions() == old(self).role_permissions(),
            final(self).navigator_roles() == old(self).navigator_roles(),
            holds_resource_role(old(self).resource_roles(), nav, role@, rtype@, rid) ==> r is Ok,
            r is Err || holds_resource_role(old(self).resource_roles(), nav, role@, rtype@, rid) ==> final(self).resource_roles() == old(self).resource_roles(),
            r is Ok && !holds_resource_role(old(self).resource_roles(), nav, role@, rtype@, rid) ==> final(self).resource_roles().len() == old(self).resource_roles().len() + 1 && final(self).resource_roles().drop_last() == old(self).resource_roles() && final(self).resource_roles().last().navigator_id == Some(nav) && final(self).resource_roles().last().role_name@ == role@ && final(self).resource_roles().last().resource_type@ == rtype@ && final(self).resource_roles().last().resource_id == rid,
    {
        if !self.role_is_known(role) {
            return Err(AccessServiceError::UnknownRole(role.to_owned()));
        }
        self.assign_resource_role(nav, role, rtype, rid);
        proof {
            assert forall|i: int| 0 <= i < self.resource_roles().len() implies role_known(
                self.role_permissions(),
                (#[trigger] self.resource_roles()[i]).role_name@,
            ) by {
                if i < old(self).resource_roles().len() && self.resource_roles().len()
                    > old(self).resource_roles().len() {
                    assert(self.resource_roles().drop_last()[i] == self.resource_roles()[i]);
                }
            }
        }
        Ok(())
    }

    /// Takes the global role `role` from `nav`; revoking a role not held changes nothing.
    pub fn revoke_global_role(&mut self, nav: NuttyId, role: &str)
        requires
            old(self).wf(),
        ensures
            final(self).wf(),
            final(self).role_permissions() == old(self).role_permissions(),
            final(self).resource_roles() == old(self).resource_roles(),
            final(self).navigator_roles() == old(self).navigator_roles().filter(
                |a: NavigatorRole| !(a.navigator_id == nav && a.role_name@ == role@),
            ),
    {
        let ghost pred = |a: NavigatorRole| !(a.navigator_id == nav && a.role_name@ == role@);
        let role = role.to_owned();
        let mut kept: Vec<NavigatorRole> = Vec::new();
        let mut i: usize = 0;
        while i < self.navigator_roles.len()
            invariant
                i <= self.navigator_roles@.len(),
                pred == (|a: NavigatorRole| !(a.navigator_id == nav && a.role_name@ == role@)),
                kept@ == self.navigator_roles@.take(i as int).filter(pred),
            decreases self.navigator_roles@.len() - i,
        {
            let a = &self.navigator_roles[i];
            if !(a.navigator_id == nav && a.role_name == role) {
                kept.push(a.clone());
            }
            proof {
                assert(self.navigator_roles@.take(i + 1).drop_last() =~= self.navigator_roles@.take(
                    i as int,
                ));
                reveal(Seq::filter);
            }
            i = i + 1;
        }
        assert(self.navigator_roles@.take(self.navigator_roles@.len() as int)
            =~= self.navigator_roles@);
        self.navigator_roles = kept;
        proof {
            broadcast use vstd::seq_lib::group_filter_ensures;

            let before = old(self).navigator_roles();
            assert forall|i: int| 0 <= i < self.navigator_roles().len() implies role_known(
                self.role_permissions(),
                (#[trigger] self.navigator_roles()[i]).role_name@,
            ) by {
                let x = self.navigator_roles()[i];
                assert(self.navigator_roles().contains(x));
                before.lemma_filter_contains_rev(pred, x);
                let j = choose|j: int| 0 <= j < before.len() && before[j] == x;
                assert(role_known(self.role_permissions(), before[j].role_name@));
            }
        }
    }

    /// Gives `nav` the role `role` on the resource (`rtype`, `rid`), named by
    /// some catalog entry or not; granting a held role changes nothing.
    fn assign_resource_role(&mut self, nav: NuttyId, role: &str, rtype: &str, rid: NuttyId)
        ensures
            final(self).role_permissions() == old(self).role_permissions(),
            final(self).navigator_roles() == old(self).navigator_roles(),
            holds_resource_role(old(self).resource_roles(), nav, role@, rtype@, rid) ==> final(self).resource_roles() == old(self).resource_roles(),
            !holds_resource_role(old(self).resource_roles(), nav, role@, rtype@, rid) ==> final(self).resource_roles().len() == old(self).resource_roles().len() + 1 && final(self).resource_roles().drop_last() == old(self).resource_roles() && final(self).resource_roles().last().navigator_id == Some(nav) && final(self).resource_roles().last().role_name@ == role@ && final(self).resource_roles().last().resource_type@ == rtype@ && final(self).resource_roles().last().resource_id == rid,
    {
        let wanted = role.to_owned();
        let kind = rtype.to_owned();
        assert(wanted@ == role@ && kind@ == rtype@);
        let mut i: usize = 0;
        while i < self.resource_roles.len()
            invariant
                wanted@ == role@,
                kind@ == rtype@,
                i <= self.resource_roles@.len(),
                forall|k: int|
                    0 <= k < i ==> !(#[trigger] self.resource_roles@[k].navigator_id == Some(nav)
                        && self.resource_roles@[k].role_name@ == wanted@
                        && self.resource_roles@[k].resource_type@ == kind@
                        && self.resource_roles@[k].resource_id == rid),
            decreases self.resource_roles@.len() - i,
        {
            let a = &self.resource_roles[i];
            let same_nav = match a.navigator_id {
                Some(n) => n == nav,
                None => false,
            };
            if same_nav && a.role_name == wanted && a.resource_type == kind && a.resource_id == rid {
                assert(old(self).resource_roles()[i as int].navigator_id == Some(nav));
                assert(old(self).resource_roles()[i as int].role_name@ == role@);
                assert(old(self).resource_roles()[i as int].resource_type@ == rtype@);
                assert(holds_resource_role(old(self).resource_roles(), nav, role@, rtype@, rid));
                return;
            }
            i = i + 1;
        }
        self.resource_roles.push(
            ResourceRole { navigator_id: Some(nav), role_name: wanted, resource_type: kind, resource_id: rid },
        );
        assert(self.resource_roles@.drop_last() =~= old(self).resource_roles@);
    }

    /// Takes the role `role` on the resource (`rtype`, `rid`) from `nav`; revoking
    /// a role not held changes nothing.
    pub fn revoke_resource_role(&mut self, nav: NuttyId, role: &str, rtype: &str, rid: NuttyId)
        requires
            old(self).wf(),
        ensures
            final(self).wf(),
            final(self).role_permissions() == old(self).role_permissions(),
            final(self).navigator_roles() == old(self).navigator_roles(),
            final(self).resource_roles() == old(self).resource_roles().filter(
                |a: ResourceRole|
                    !(a.navigator_id == Some(nav) && a.role_name@ == role@ && a.resource_type@
                        == rtype@ && a.resource_id == rid),
            ),
    {
        let ghost pred = |a: ResourceRole|
            !(a.navigator_id == Some(nav) && a.role_name@ == role@ && a.resource_type@ == rtype@
                && a.resource_id == rid);
        let role = role.to_owned();
        let rtype = rtype.to_owned();
        let mut kept: Vec<ResourceRole> = Vec::new();
        let mut i: usize = 0;
        while i < self.resource_roles.len()
            invariant
                i <= self.resource_roles@.len(),
                pred == (|a: ResourceRole|
                    !(a.navigator_id == Some(nav) && a.role_name@ == role@ && a.resource_type@
                        == rtype@ && a.resource_id == rid)),
                kept@ == self.resource_roles@.take(i as int).filter(pred),
            decreases self.resource_roles@.len() - i,
        {
            let a = &self.resource_roles[i];
            let same_nav = match a.navigator_id {
                Some(n) => n == nav,
                None => false,
            };
            if !(same_nav && a.role_name == role && a.resource_type == rtype && a.resource_id == rid) {
                kept.push(a.clone());
            }
            proof {
                assert(self.resource_roles@.take(i + 1).drop_last() =~= self.resource_roles@.take(
                    i as int,
                ));
                reveal(Seq::filter);
            }
            i = i + 1;
        }
        assert(self.resource_roles@.take(self.resource_roles@.len() as int)
            =~= self.resource_roles@);
        self.resource_roles = kept;
        proof {
            broadcast use vstd::seq_lib::group_filter_ensures;

            let before = old(self).resource_roles();
            assert(self.navigator_roles() == old(self).navigator_roles());
            assert(self.role_permissions() == old(self).role_permissions());
            assert(self.resource_roles() == before.filter(pred));
            assert forall|i: int| 0 <= i < self.resource_roles().len() implies role_known(
                self.role_permissions(),
                (#[trigger] self.resource_roles()[i]).role_name@,
            ) by {
                let x = self.resource_roles()[i];
                assert(self.resource_roles().contains(x));
                before.lemma_filter_contains_rev(pred, x);
                let j = choose|j: int| 0 <= j < before.len() && before[j] == x;
                assert(role_known(self.role_permissions(), before[j].role_name@));
            }
        }
    }

    /// The permissions carried by the global roles of `nav`, each once.
    pub fn get_navigator_permissions(&self, nav: NuttyId) -> (r: Vec<String>)
        ensures
            forall|p: Seq<char>| #[trigger] has_text(r@, p) <==> self.global_grant(nav, p),
            forall|a: int, b: int| 0 <= a < b < r@.len() ==> (#[trigger] r@[a])@ != (#[trigger] r@[b])@,
    {
        let mut out: Vec<String> = Vec::new();
        let mut j: usize = 0;
        while j < self.role_permissions.len()
            invariant
                j <= self.role_permissions@.len(),
                forall|a: int, b: int|
                    0 <= a < b < out@.len() ==> (#[trigger] out@[a])@ != (#[trigger] out@[b])@,
                forall|p: Seq<char>| #[trigger]
                    has_text(out@, p) <==> carried_before(self.role_permissions(), self.navigator_roles(), nav, p, j as int),
            decreases self.role_permissions@.len() - j,
        {
            let e = &self.role_permissions[j];
            let held = self.holds_role(nav, &e.role_name);
            let ghost before = out@;
            if held {
                let mut seen = false;
                let mut k: usize = 0;
                while k < out.len()
                    invariant
                        k <= out@.len(),
                        seen == exists|m: int| 0 <= m < k && (#[trigger] out@[m])@ == e.permission_name@,
                    decreases out@.len() - k,
                {
                    if out[k] == e.permission_name {
                        seen = true;
                    }
                    k = k + 1;
                }
                if !seen {
                    out.push(e.permission_name.clone());
                    proof {
                        assert forall|x: int, y: int|
                            0 <= x < y < out@.len() implies (#[trigger] out@[x])@ != (#[trigger] out@[y])@ by {
                            assert(before[x] == out@[x]);
                            if y < out@.len() - 1 {
                                assert(before[y] == out@[y]);
                            }
                        }
                    }
                }
            }
            proof {
                assert forall|p: Seq<char>| #[trigger]
                    has_text(out@, p) <==> carried_before(self.role_permissions(), self.navigator_roles(), nav, p, j + 1) by {
                    if has_text(before, p) {
                        let k = choose|k: int| 0 <= k < before.len() && (#[trigger] before[k])@ == p;
                        assert(out@[k] == before[k]);
                    }
                    if has_text(out@, p) {
                        let k = choose|k: int| 0 <= k < out@.len() && (#[trigger] out@[k])@ == p;
                        if k < before.len() {
                            assert(out@[k] == before[k]);
                        } else {
                            assert(self.role_permissions()[j as int].permission_name@ == p);
                        }
                    }
                    if carried_before(self.role_permissions(), self.navigator_roles(), nav, p, j + 1) {
                        let q = choose|q: int|
                            0 <= q < j + 1 && #[trigger] self.role_permissions()[q].permission_name@ == p
                                && holds_global_role(self.navigator_roles(), nav, self.role_permissions()[q].role_name@);
                        if q == j && held {
                            if !has_text(before, p) {
                                assert(out@[out@.len() - 1] == e.permission_name);
                            }
                        }
                    }
                    if carried_before(self.role_permissions(), self.navigator_roles(), nav, p, j as int) {
                        let q = choose|q: int|
                            0 <= q < j && #[trigger] self.role_permissions()[q].permission_name@ == p
                                && holds_global_role(self.navigator_roles(), nav, self.role_permissions()[q].role_name@);
                        assert(0 <= q < j + 1);
                    }
                }
            }
            j = j + 1;
        }
        proof {
            assert forall|p: Seq<char>|
                carried_before(self.role_permissions(), self.navigator_roles(), nav, p, self.role_permissions().len() as int)
                    <==> self.global_grant(nav, p) by {
                if self.global_grant(nav, p) {
                    let i = choose|i: int|
                        0 <= i < self.navigator_roles().len() && #[trigger] self.navigator_roles()[i].navigator_id
                            == nav && role_grants(self.role_permissions(), self.navigator_roles()[i].role_name@, p);
                    let q = choose|q: int|
                        0 <= q < self.role_permissions().len() && #[trigger] self.role_permissions()[q].role_name@
                            == self.navigator_roles()[i].role_name@ && self.role_permissions()[q].permission_name@ == p;
                    assert(holds_global_role(self.navigator_roles(), nav, self.role_permissions()[q].role_name@));
                    assert(self.role_permissions()[q].permission_name@ == p);
                }
                if carried_before(self.role_permissions(), self.navigator_roles(), nav, p, self.role_permissions().len() as int) {
                    let q = choose|q: int|
                        0 <= q < self.role_permissions().len() && #[trigger] self.role_permissions()[q].permission_name@ == p
                            && holds_global_role(self.navigator_roles(), nav, self.role_permissions()[q].role_name@);
                    let i = choose|i: int|
                        0 <= i < self.navigator_roles().len() && #[trigger] self.navigator_roles()[i].navigator_id
                            == nav && self.navigator_roles()[i].role_name@ == self.role_permissions()[q].role_name@;
                    assert(self.role_permissions()[q].role_name@ == self.navigator_roles()[i].role_name@);
                    assert(role_grants(self.role_permissions(), self.navigator_roles()[i].role_name@, p));
                }
            }
        }
        out
    }

    /// Whether `nav` holds the global role `role`.
    fn holds_role(&self, nav: NuttyId, role: &String) -> (r: bool)
        ensures
            r == holds_global_role(self.navigator_roles(), nav, role@),
    {
        let mut i: usize = 0;
        while i < self.navigator_roles.len()
            invariant
                i <= self.navigator_roles@.len(),
                forall|k: int|
                    0 <= k < i ==> !(#[trigger] self.navigator_roles@[k].navigator_id == nav
                        && self.navigator_roles@[k].role_name@ == role@),
            decreases self.navigator_roles@.len() - i,
        {
            let a = &self.navigator_roles[i];
            if a.navigator_id == nav && a.role_name == *role {
                assert(self.navigator_roles()[i as int].navigator_id == nav);
                return true;
            }
            i = i + 1;
        }
        false
    }

    /// The roles that `nav` holds on resources, in catalog order.
    pub fn get_navigator_resource_roles(&self, nav: NuttyId) -> (r: Vec<ResourceRole>)
        ensures
            r@ == self.resource_roles().filter(|a: ResourceRole| a.navigator_id == Some(nav)),
    {
        let ghost pred = |a: ResourceRole| a.navigator_id == Some(nav);
        let mut out: Vec<ResourceRole> = Vec::new();
        let mut i: usize = 0;
        while i < self.resource_roles.len()
            invariant
                i <= self.resource_roles@.len(),
                pred == (|a: ResourceRole| a.navigator_id == Some(nav)),
                out@ == self.resource_roles@.take(i as int).filter(pred),
            decreases self.resource_roles@.len() - i,
        {
            let a = &self.resource_roles[i];
            let mine = match a.navigator_id {
                Some(n) => n == nav,
                None => false,
            };
            if mine {
                out.push(a.clone());
            }
            proof {
                assert(self.resource_roles@.take(i + 1).drop_last() =~= self.resource_roles@.take(
                    i as int,
                ));
                reveal(Seq::filter);
            }
            i = i + 1;
        }
        assert(self.resource_roles@.take(self.resource_roles@.len() as int)
            =~= self.resource_roles@);
        out
    }

    /// `Ok` when `check` is granted; otherwise `PermissionDenied`, naming the
    /// navigator and the resource by the text forms of their identifiers.
    pub fn require(&self, check: &PermissionCheck, owner: Option<NuttyId>) -> (r: Result<
        (),
        AccessServiceError,
    >)
        ensures
            r is Ok <==> self.resolve(
                check.spec_navigator_id(),
                check.spec_permission(),
                check.spec_resource_type(),
                check.spec_resource_id(),
                owner,
            ).grants(),
            r matches Err(e) ==> (e matches AccessServiceError::PermissionDenied {
                navigator_id,
                permission,
                resource,
            } && permission@ == check.spec_permission() && denial_navigator(
                navigator_id,
                check.spec_navigator_id(),
            ) && denial_resource(resource, check.spec_resource_type(), check.spec_resource_id())),
    {
        let result = self.check_permission(check, owner);
        if result.is_granted() {
            return Ok(());
        }
        let navigator_id = match check.navigator_id {
            Some(n) => Some(n.to_text()),
            None => None,
        };
        let resource = match (&check.resource_type, check.resource_id) {
            (Some(t), Some(id)) => Some(resource_text(t.as_str(), id)),
            _ => None,
        };
        Err(
            AccessServiceError::PermissionDenied {
                navigator_id,
                permission: check.permission.clone(),
                resource,
            },
        )
    }

    /// Whether `nav` is granted `perm` without naming a resource: through a
    /// global role, for tokens other than `:own` ones.
    pub fn can_permission(&self, nav: NuttyId, perm: &str) -> (r: Result<bool, AccessServiceError>)
        ensures
            r == Ok::<bool, AccessServiceError>(
                !is_own_permission(perm@) && self.global_grant(nav, perm@),
            ),
    {
        let check = PermissionCheck::builder().navigator(nav).permission(perm.to_owned());
        match check.try_build() {
            Ok(c) => Ok(self.can(&c, None)),
            Err(e) => Err(AccessServiceError::PermissionCheck(e)),
        }
    }

    /// Whether `nav` holds `perm` on the resource (`rtype`, `rid`), `owner`
    /// being its recorded owner.
    pub fn can_on_resource(
        &self,
        nav: NuttyId,
        perm: &str,
        rtype: &str,
        rid: NuttyId,
        owner: Option<NuttyId>,
    ) -> (r: Result<bool, AccessServiceError>)
        ensures
            r == Ok::<bool, AccessServiceError>(
                self.resolve(Some(nav), perm@, Some(rtype@), Some(rid), owner).grants(),
            ),
    {
        let check = PermissionCheck::builder().navigator(nav).permission(perm.to_owned()).resource(
            rtype.to_owned(),
            rid,
        );
        match check.try_build() {
            Ok(c) => Ok(self.can(&c, owner)),
            Err(e) => Err(AccessServiceError::PermissionCheck(e)),
        }
    }

    /// `Ok` when `nav` holds `perm` on the resource (`rtype`, `rid`); otherwise
    /// `PermissionDenied`.
    pub fn require_on(
        &self,
        nav: NuttyId,
        perm: &str,
        rtype: &str,
        rid: NuttyId,
        owner: Option<NuttyId>,
    ) -> (r: Result<(), AccessServiceError>)
        ensures
            r is Ok <==> self.resolve(Some(nav), perm@, Some(rtype@), Some(rid), owner).grants(),
    {
        let check = PermissionCheck::builder().navigator(nav).permission(perm.to_owned()).resource(
            rtype.to_owned(),
            rid,
        );
        match check.try_build() {
            Ok(c) => self.require(&c, owner),
            Err(e) => Err(AccessServiceError::PermissionCheck(e)),
        }
    }

    /// Tier-2 checks of `perm` on the `ancestors` of a resource, nearest first;
    /// the first grant ends the walk.
    pub fn check_ancestors(
        &self,
        nav: NuttyId,
        perm: &String,
        rtype: &String,
        ancestors: &Vec<NuttyId>,
    ) -> (r: PermissionResult)
        ensures
            r == self.cascade(nav, perm@, rtype@, ancestors@),
    {
        let mut i: usize = 0;
        assert(ancestors@.skip(0) =~= ancestors@);
        while i < ancestors.len()
            invariant
                i <= ancestors@.len(),
                self.cascade(nav, perm@, rtype@, ancestors@) == self.cascade(
                    nav,
                    perm@,
                    rtype@,
                    ancestors@.skip(i as int),
                ),
            decreases ancestors@.len() - i,
        {
            let a = ancestors[i];
            proof {
                assert(ancestors@.skip(i as int)[0] == a);
                assert(ancestors@.skip(i as int).skip(1) =~= ancestors@.skip(i + 1));
            }
            if self.has_resource_permission(nav, perm, rtype, a) {
                return PermissionResult::GrantedResource;
            }
            i = i + 1;
        }
        PermissionResult::Denied
    }
}

/// Some string of `v` has the text `p`.
pub open spec fn has_text(v: Seq<String>, p: Seq<char>) -> bool {
    exists|k: int| 0 <= k < v.len() && (#[trigger] v[k])@ == p
}

/// Among the first `j` role-to-permission entries, one gives `p` to a global role of `nav`.
pub open spec fn carried_before(
    rp: Seq<RolePermission>,
    roles: Seq<NavigatorRole>,
    nav: NuttyId,
    p: Seq<char>,
    j: int,
) -> bool {
    exists|q: int|
        0 <= q < j && #[trigger] rp[q].permission_name@ == p && holds_global_role(roles, nav, rp[q].role_name@)
}

/// Some catalog entry names the role `role`.
pub open spec fn role_known(rp: Seq<RolePermission>, role: Seq<char>) -> bool {
    exists|j: int| 0 <= j < rp.len() && (#[trigger] rp[j]).role_name@ == role
}

/// `nav` holds the global role `role`.
pub open spec fn holds_global_role(roles: Seq<NavigatorRole>, nav: NuttyId, role: Seq<char>) -> bool {
    exists|k: int| 0 <= k < roles.len() && #[trigger] roles[k].navigator_id == nav && roles[k].role_name@ == role
}

/// `nav` holds the role `role` on the resource (`rtype`, `rid`).
pub open spec fn holds_resource_role(
    roles: Seq<ResourceRole>,
    nav: NuttyId,
    role: Seq<char>,
    rtype: Seq<char>,
    rid: NuttyId,
) -> bool {
    exists|k: int|
        0 <= k < roles.len() && #[trigger] roles[k].navigator_id == Some(nav) && roles[k].role_name@ == role
            && roles[k].resource_type@ == rtype && roles[k].resource_id == rid
}

/// The global tier answers first: a navigator whose global roles carry a
/// permission other than an `:own` one is granted globally, whatever roles it
/// holds on the resource.
pub proof fn lemma_global_tier_first(
    c: AccessCatalog,
    nav: NuttyId,
    perm: Seq<char>,
    rtype: Option<Seq<char>>,
    rid: Option<NuttyId>,
    owner: Option<NuttyId>,
)
    requires
        !is_own_permission(perm),
        c.global_grant(nav, perm),
    ensures
        c.resolve(Some(nav), perm, rtype, rid, owner) == PermissionResult::GrantedGlobal,
{
}

/// Ownership requires both facts: for an `:own` permission and no role on the
/// resource that carries it, access is granted (through ownership) exactly when
/// the navigator holds the permission globally and owns the resource, and is
/// denied otherwise.
pub proof fn lemma_own_permission_needs_ownership(
    c: AccessCatalog,
    nav: NuttyId,
    perm: Seq<char>,
    rtype: Seq<char>,
    rid: NuttyId,
    owner: Option<NuttyId>,
)
    requires
        is_own_permission(perm),
        !c.resource_grant(nav, perm, rtype, rid),
    ensures
        c.resolve(Some(nav), perm, Some(rtype), Some(rid), owner) == if c.global_grant(nav, perm)
            && owner == Some(nav) {
            PermissionResult::GrantedOwnership
        } else {
            PermissionResult::Denied
        },
{
}

/// The ancestor walk ends at the first ancestor that grants: with a grant at
/// position `k` and none before it, the walk grants, and the ancestors after
/// position `k` (the root among them) play no part in the answer.
pub proof fn lemma_cascade_stops_at_first_grant(
    c: AccessCatalog,
    nav: NuttyId,
    perm: Seq<char>,
    rtype: Seq<char>,
    ancestors: Seq<NuttyId>,
    k: int,
)
    requires
        0 <= k < ancestors.len(),
        c.resource_grant(nav, perm, rtype, ancestors[k]),
        forall|j: int| 0 <= j < k ==> !c.resource_grant(nav, perm, rtype, #[trigger] ancestors[j]),
    ensures
        c.cascade(nav, perm, rtype, ancestors) == PermissionResult::GrantedResource,
        forall|rest: Seq<NuttyId>|
            c.cascade(nav, perm, rtype, #[trigger] (ancestors.take(k + 1) + rest))
                == PermissionResult::GrantedResource,
    decreases k,
{
    if k > 0 {
        let tail = ancestors.skip(1);
        assert forall|j: int| 0 <= j < k - 1 implies !c.resource_grant(
            nav,
            perm,
            rtype,
            #[trigger] tail[j],
        ) by {
            assert(tail[j] == ancestors[j + 1]);
        }
        assert(tail[k - 1] == ancestors[k]);
        assert(!c.resource_grant(nav, perm, rtype, ancestors[0]));
        lemma_cascade_stops_at_first_grant(c, nav, perm, rtype, tail, k - 1);
        assert forall|rest: Seq<NuttyId>|
            c.cascade(nav, perm, rtype, #[trigger] (ancestors.take(k + 1) + rest))
                == PermissionResult::GrantedResource by {
            let whole = ancestors.take(k + 1) + rest;
            assert(whole[0] == ancestors[0]);
            assert(whole.skip(1) =~= tail.take(k) + rest);
        }
    } else {
        assert forall|rest: Seq<NuttyId>|
            c.cascade(nav, perm, rtype, #[trigger] (ancestors.take(k + 1) + rest))
                == PermissionResult::GrantedResource by {
            let whole = ancestors.take(k + 1) + rest;
            assert(whole[0] == ancestors[0]);
        }
    }
}

/// `rtype:id`, naming a resource by its type and the text form of its identifier.
fn resource_text(rtype: &str, id: NuttyId) -> (r: String)
    ensures
        names_resource_as(r@, rtype@, id),
{
    let mut chars: Vec<char> = Vec::new();
    push_chars(&mut chars, rtype);
    chars.push(':');
    let text = id.to_text();
    push_chars(&mut chars, text.as_str());
    let r = string_from_chars(&chars);
    assert(r@ =~= rtype@ + seq![':'] + text@);
    assert(r@.take(rtype@.len() as int) =~= rtype@);
    assert(r@.skip(rtype@.len() as int + 1) =~= text@);
    assert(r@[rtype@.len() as int] == ':');
    r
}

/// `s` is `rtype`, `:` and the text form of `id`.
pub open spec fn names_resource_as(s: Seq<char>, rtype: Seq<char>, id: NuttyId) -> bool {
    s.len() > rtype.len() && s.take(rtype.len() as int) == rtype && s[rtype.len() as int] == ':'
        && is_id_text(s.skip(rtype.len() as int + 1), id)
}

/// The navigator text of a denial: the text form of the navigator, if any.
pub open spec fn denial_navigator(t: Option<String>, nav: Option<NuttyId>) -> bool {
    match (t, nav) {
        (Some(s), Some(n)) => is_id_text(s@, n),
        (None, None) => true,
        _ => false,
    }
}

/// The resource text of a denial: `type:id` when both are given, else none.
pub open spec fn denial_resource(t: Option<String>, rtype: Option<Seq<char>>, rid: Option<NuttyId>) -> bool {
    match (t, rtype, rid) {
        (Some(s), Some(k), Some(i)) => names_resource_as(s@, k, i),
        (None, k, i) => !(k is Some && i is Some),
        _ => false,
    }
}

/// Whether `perm` ends with `:own`.
fn ends_with_own(perm: &str) -> (r: bool)
    ensures
        r == is_own_permission(perm@),
{
    let n = perm.unicode_len();
    if n < 4 {
        return false;
    }
    let a = perm.get_char(n - 4);
    let b = perm.get_char(n - 3);
    let c = perm.get_char(n - 2);
    let d = perm.get_char(n - 1);
    let r = a == ':' && b == 'o' && c == 'w' && d == 'n';
    proof {
        let tail = perm@.subrange(n - 4, n as int);
        if r {
            assert(tail =~= seq![':', 'o', 'w', 'n']);
        } else {
            if tail == seq![':', 'o', 'w', 'n'] {
                assert(tail[0] == a && tail[1] == b && tail[2] == c && tail[3] == d);
            }
        }
    }
    r
}

} // verus!
