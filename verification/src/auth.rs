//! The authenticated identity, role resolution, and the per-request
//! authorization context with its capability checks.

use vstd::prelude::*;
use crate::codec::str_eq;
use crate::error::LightSpeedError;

verus! {

/// The identity embedded verbatim in a token payload.
pub struct Auth {
    pub username: String,
    pub id: i64,
    pub roles: Vec<String>,
}

/// The mathematical value of an [`Auth`].
pub struct AuthView {
    pub username: Seq<char>,
    pub id: i64,
    pub roles: Seq<Seq<char>>,
}

impl View for Auth {
    type V = AuthView;

    open spec fn view(&self) -> AuthView {
        AuthView { username: self.username@, id: self.id, roles: self.roles.deep_view() }
    }
}

impl DeepView for Auth {
    type V = AuthView;

    open spec fn deep_view(&self) -> AuthView {
        self.view()
    }
}

impl Auth {
    /// An equal copy of this identity.
    pub fn duplicate(&self) -> (r: Auth)
        ensures
            r@ == self@,
    {
        let mut roles: Vec<String> = Vec::new();
        let mut i: usize = 0;
        while i < self.roles.len()
            invariant
                i <= self.roles.len(),
                roles@ == self.roles@.subrange(0, i as int),
            decreases self.roles.len() - i,
        {
            roles.push(self.roles[i].clone());
            assert(roles@ =~= self.roles@.subrange(0, i + 1 as int));
            i += 1;
        }
        proof {
            assert(roles@ =~= self.roles@);
        }
        Auth { username: self.username.clone(), id: self.id, roles }
    }
}

/// A named role and the permissions it grants.
pub struct Role {
    pub name: String,
    pub permissions: Vec<String>,
}

/// The mathematical value of a [`Role`].
pub struct RoleView {
    pub name: Seq<char>,
    pub permissions: Seq<Seq<char>>,
}

impl View for Role {
    type V = RoleView;

    open spec fn view(&self) -> RoleView {
        RoleView { name: self.name@, permissions: self.permissions.deep_view() }
    }
}

impl DeepView for Role {
    type V = RoleView;

    open spec fn deep_view(&self) -> RoleView {
        self.view()
    }
}

/// The first role of `roles` named `name`, if any.
pub open spec fn find_role(roles: Seq<RoleView>, name: Seq<char>) -> Option<RoleView>
    decreases roles.len(),
{
    if roles.len() == 0 {
        None
    } else if roles[0].name == name {
        Some(roles[0])
    } else {
        find_role(roles.drop_first(), name)
    }
}

/// The permissions granted by the role named `name`; empty when no role of
/// that name is known.
pub open spec fn role_permission_set(roles: Seq<RoleView>, name: Seq<char>) -> Set<Seq<char>> {
    match find_role(roles, name) {
        Some(role) => role.permissions.to_set(),
        None => Set::empty(),
    }
}

/// The union of the permissions of every known role among `names`; unknown
/// names contribute nothing.
pub open spec fn resolved_permissions(names: Seq<Seq<char>>, roles: Seq<RoleView>) -> Set<
    Seq<char>,
>
    decreases names.len(),
{
    if names.len() == 0 {
        Set::empty()
    } else {
        resolved_permissions(names.drop_last(), roles).union(
            role_permission_set(roles, names.last()),
        )
    }
}

/// Resolves role names to roles. The reference implementation is an
/// in-memory list; storage-backed variants expose the same contract over
/// their abstract role sequence.
pub trait RolesProvider: Sized {
    /// The roles this provider knows, in lookup order.
    spec fn roles(&self) -> Seq<RoleView>;

    /// The first role named `name`, or `None` when the name is unknown.
    fn resolve(&self, name: &str) -> (r: Option<&Role>)
        ensures
            match r {
                Some(role) => find_role(self.roles(), name@) == Some(role@),
                None => find_role(self.roles(), name@) is None,
            },
    ;

    /// Whether a role named `name` is known.
    fn exists_role(&self, name: &str) -> (r: bool)
        ensures
            r == (find_role(self.roles(), name@) is Some),
    ;
}

/// A [`RolesProvider`] backed by a fixed list built at startup.
pub struct InMemoryRolesProvider {
    pub roles: Vec<Role>,
}

impl InMemoryRolesProvider {
    pub fn new(roles: Vec<Role>) -> (s: Self)
        ensures
            s.roles() == roles.deep_view(),
    {
        InMemoryRolesProvider { roles }
    }
}

/// `find_role` ignores a prefix of roles whose names all differ from
/// `name`.
proof fn lemma_find_role_skip(roles: Seq<RoleView>, name: Seq<char>, i: int)
    requires
        0 <= i <= roles.len(),
        forall|k: int| 0 <= k < i ==> (#[trigger] roles[k]).name != name,
    ensures
        find_role(roles, name) == find_role(roles.skip(i), name),
    decreases i,
{
    if i > 0 {
        assert(roles.len() > 0);
        assert(roles[0].name != name);
        assert(find_role(roles, name) == find_role(roles.drop_first(), name));
        assert(forall|k: int|
            0 <= k < i - 1 ==> (#[trigger] roles.drop_first()[k]).name != name) by {
            assert(forall|k: int|
                0 <= k < roles.len() - 1 ==> #[trigger] roles.drop_first()[k] == roles[k + 1]);
        }
        lemma_find_role_skip(roles.drop_first(), name, i - 1);
        assert(roles.drop_first().skip(i - 1) =~= roles.skip(i));
    } else {
        assert(roles.skip(0) =~= roles);
    }
}

impl RolesProvider for InMemoryRolesProvider {
    open spec fn roles(&self) -> Seq<RoleView> {
        self.roles.deep_view()
    }

    fn resolve(&self, name: &str) -> (r: Option<&Role>) {
        let ghost all = self.roles.deep_view();
        let mut i: usize = 0;
        while i < self.roles.len()
            invariant
                i <= self.roles.len(),
                all == self.roles.deep_view(),
                all.len() == self.roles.len(),
                forall|k: int| 0 <= k < i ==> (#[trigger] all[k]).name != name@,
            decreases self.roles.len() - i,
        {
            if str_eq(self.roles[i].name.as_str(), name) {
                proof {
                    lemma_find_role_skip(all, name@, i as int);
                    assert(all.skip(i as int).len() > 0);
                    assert(all.skip(i as int)[0] == all[i as int]);
                }
                return Some(&self.roles[i]);
            }
            i += 1;
        }
        proof {
            lemma_find_role_skip(all, name@, all.len() as int);
            assert(all.skip(all.len() as int).len() == 0);
        }
        None
    }

    fn exists_role(&self, name: &str) -> (r: bool) {
        match self.resolve(name) {
            Some(_) => true,
            None => false,
        }
    }
}

/// Builds an authorization context from a verified identity by resolving
/// the permissions of each claimed role.
pub struct AuthService<T: RolesProvider> {
    pub roles_provider: T,
}

/// `(s.push(x)).to_set()` adds exactly `x` to `s.to_set()`.
proof fn lemma_push_to_set<A>(s: Seq<A>, x: A)
    ensures
        s.push(x).to_set() == s.to_set().insert(x),
{
    let p = s.push(x);
    assert forall|a: A| #[trigger] p.to_set().contains(a) implies s.to_set().insert(a).contains(a)
        by {}
    assert forall|a: A| #[trigger]
        s.to_set().insert(x).contains(a) implies p.to_set().contains(a) by {
        if a == x {
            assert(p[s.len() as int] == x);
            assert(p.contains(a));
        } else {
            assert(s.contains(a));
            let k = choose|k: int| 0 <= k < s.len() && s[k] == a;
            assert(p[k] == a);
            assert(p.contains(a));
        }
    }
    assert forall|a: A| #[trigger] p.to_set().contains(a) implies s.to_set().insert(x).contains(a)
        by {
        let k = choose|k: int| 0 <= k < p.len() && p[k] == a;
        if k < s.len() {
            assert(s[k] == a);
            assert(s.contains(a));
        } else {
            assert(a == x);
        }
    }
    assert(p.to_set() =~= s.to_set().insert(x));
}

impl<T: RolesProvider> AuthService<T> {
    pub fn new(roles_provider: T) -> (s: Self)
        ensures
            s.roles_provider == roles_provider,
    {
        AuthService { roles_provider }
    }

    /// Enriches an identity into an authorization context: the permissions
    /// are the union over the identity's known roles; unknown role names
    /// are dropped silently rather than failing the whole authorization.
    pub fn auth(&self, auth: Auth) -> (ctx: AuthContext)
        ensures
            ctx.auth == auth,
            ctx.permissions.deep_view().to_set() == resolved_permissions(
                auth@.roles,
                self.roles_provider.roles(),
            ),
    {
        let ghost names = auth@.roles;
        let ghost all = self.roles_provider.roles();
        let mut permissions: Vec<String> = Vec::new();
        let mut i: usize = 0;
        while i < auth.roles.len()
            invariant
                i <= auth.roles.len(),
                names == auth@.roles,
                all == self.roles_provider.roles(),
                names.len() == auth.roles.len(),
                permissions.deep_view().to_set() == resolved_permissions(
                    names.take(i as int),
                    all,
                ),
            decreases auth.roles.len() - i,
        {
            proof {
                assert(names.take(i + 1 as int).drop_last() =~= names.take(i as int));
                assert(names.take(i + 1 as int).last() == names[i as int]);
            }
            match self.roles_provider.resolve(auth.roles[i].as_str()) {
                Some(role) => {
                    let ghost perms = role@.permissions;
                    proof {
                        assert(role_permission_set(all, names[i as int]) == perms.to_set());
                    }
                    let mut j: usize = 0;
                    while j < role.permissions.len()
                        invariant
                            j <= role.permissions.len(),
                            perms == role@.permissions,
                            perms.len() == role.permissions.len(),
                            permissions.deep_view().to_set() == resolved_permissions(
                                names.take(i as int),
                                all,
                            ).union(perms.take(j as int).to_set()),
                        decreases role.permissions.len() - j,
                    {
                        let ghost old_perms_seq = permissions.deep_view();
                        permissions.push(role.permissions[j].clone());
                        proof {
                            assert forall|k: int|
                                0 <= k < permissions.deep_view().len() implies
                                #[trigger] permissions.deep_view()[k] == old_perms_seq.push(
                                perms[j as int])[k] by {
                                if k < old_perms_seq.len() {
                                    assert(permissions@[k] == permissions@.drop_last()[k]);
                                }
                            }
                            assert(permissions.deep_view() =~= old_perms_seq.push(
                                perms[j as int]));
                            lemma_push_to_set(old_perms_seq, perms[j as int]);
                            assert(perms.take(j + 1 as int) =~= perms.take(j as int).push(
                                perms[j as int]));
                            lemma_push_to_set(perms.take(j as int), perms[j as int]);
                            assert(resolved_permissions(names.take(i as int), all).union(
                                perms.take(j + 1 as int).to_set()) =~= resolved_permissions(
                                names.take(i as int), all).union(
                                perms.take(j as int).to_set()).insert(perms[j as int]));
                        }
                        j += 1;
                    }
                    proof {
                        assert(perms.take(perms.len() as int) =~= perms);
                    }
                },
                None => {
                    proof {
                        assert(role_permission_set(all, names[i as int]) =~= Set::<
                            Seq<char>,
                        >::empty());
                        assert(resolved_permissions(names.take(i + 1 as int), all)
                            =~= resolved_permissions(names.take(i as int), all));
                    }
                },
            }
            i += 1;
        }
        proof {
            assert(names.take(names.len() as int) =~= names);
        }
        AuthContext { auth, permissions }
    }
}

/// The per-request authorization context: a verified identity together
/// with the permissions resolved from its roles.
pub struct AuthContext {
    pub auth: Auth,
    pub permissions: Vec<String>,
}

impl AuthContext {
    /// Succeeds with the same context when the identity claims the role,
    /// so checks can be chained; fails closed with `ForbiddenError`
    /// otherwise. The check consults the claimed role names, which are
    /// authoritative once the token signature has been verified, not the
    /// resolved permissions.
    pub fn has_role(&self, role: &str) -> (r: Result<&AuthContext, LightSpeedError>)
        ensures
            self.auth@.roles.contains(role@) ==> (r matches Ok(c) && c == self),
            !self.auth@.roles.contains(role@) ==> (r matches Err(e) && e is ForbiddenError),
    {
        let mut i: usize = 0;
        while i < self.auth.roles.len()
            invariant
                i <= self.auth.roles.len(),
                forall|k: int| 0 <= k < i ==> #[trigger] self.auth@.roles[k] != role@,
            decreases self.auth.roles.len() - i,
        {
            if str_eq(self.auth.roles[i].as_str(), role) {
                proof {
                    assert(self.auth@.roles[i as int] == role@);
                }
                return Ok(self);
            }
            i += 1;
        }
        proof {
            assert(forall|k: int|
                0 <= k < self.auth@.roles.len() ==> #[trigger] self.auth@.roles[k] != role@);
        }
        Err(LightSpeedError::ForbiddenError { message: String::new() })
    }

    /// Trivially succeeds: the existence of an `AuthContext` already
    /// implies successful authentication. Included for chaining symmetry.
    pub fn is_authenticated(&self) -> (r: Result<&AuthContext, LightSpeedError>)
        ensures
            r matches Ok(c) && c == self,
    {
        Ok(self)
    }
}

} // verus!
