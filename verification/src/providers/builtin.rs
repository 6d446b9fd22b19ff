//! Minimal built-in providers.

use std::marker::PhantomData;

use vstd::prelude::*;

use crate::error::Error;
use crate::order::bytes_equal;
use crate::providers::{
    Authenticator, Authorizor, Credentials, KeyspacePermission, PermissionHandler, SystemPermission,
};
use crate::storage::Slice;
use crate::visibility::text::text_equal;
use crate::visibility::Authorizations;

verus! {

/// One principal of a [`StaticAuthenticator`].
struct Principal<I> {
    name: String,
    secret: Slice,
    identity: I,
}

/// In-memory authenticator keyed by principal.
pub struct StaticAuthenticator<I> {
    principals: Vec<Principal<I>>,
}

spec fn names<I>(principals: Seq<Principal<I>>) -> Seq<Seq<char>> {
    Seq::new(principals.len(), |i: int| principals[i].name@)
}

impl<I> View for StaticAuthenticator<I> {
    type V = Map<Seq<char>, (Seq<u8>, I)>;

    closed spec fn view(&self) -> Map<Seq<char>, (Seq<u8>, I)> {
        Map::new(
            |name: Seq<char>| names(self.principals@).contains(name),
            |name: Seq<char>|
                {
                    let principal = self.principals@[names(self.principals@).index_of(name)];
                    (principal.secret@, principal.identity)
                },
        )
    }
}

impl<I> StaticAuthenticator<I> {
    #[verifier::type_invariant]
    spec fn inv(self) -> bool {
        names(self.principals@).no_duplicates()
    }

    proof fn lemma_lookup(principals: Seq<Principal<I>>, at: int)
        requires
            0 <= at < principals.len(),
            names(principals).no_duplicates(),
        ensures
            names(principals).contains(principals[at].name@),
            names(principals).index_of(principals[at].name@) == at,
    {
        assert(names(principals)[at] == principals[at].name@);
    }
}

impl<I> StaticAuthenticator<I> where I: Clone + Send + Sync + 'static {
    /// Creates an empty static authenticator.
    #[must_use]
    pub fn new() -> (authenticator: Self)
        ensures
            authenticator@ == Map::<Seq<char>, (Seq<u8>, I)>::empty(),
    {
        let authenticator = StaticAuthenticator { principals: Vec::new() };
        assert(authenticator@ =~= Map::empty());
        authenticator
    }

    /// Adds one principal, secret, and identity mapping.
    #[must_use]
    pub fn with_principal(self, principal: String, secret: Slice, identity: I) -> (authenticator:
        Self)
        ensures
            authenticator@ == self@.insert(principal@, (secret@, identity)),
    {
        proof {
            use_type_invariant(&self);
        }
        let ghost before = self.principals@;
        let (at, found) = self.position(principal.as_str());
        let mut principals = self.principals;
        let added = Principal { name: principal, secret, identity };
        if found {
            principals.set(at, added);
            assert(names(principals@) =~= names(before));
        } else {
            principals.push(added);
            proof {
                assert(names(principals@) =~= names(before).push(principal@));
                assert(names(principals@).no_duplicates()) by {
                    assert forall|i: int, j: int|
                        0 <= i < names(principals@).len() && 0 <= j < names(principals@).len() && i
                            != j implies names(principals@)[i] != names(principals@)[j] by {
                        if i < before.len() {
                            assert(names(before).contains(names(before)[i]));
                        }
                        if j < before.len() {
                            assert(names(before).contains(names(before)[j]));
                        }
                    }
                }
            }
        }
        let ghost after = principals@;
        let authenticator = StaticAuthenticator { principals };
        proof {
            let expected = self@.insert(principal@, (secret@, identity));
            assert forall|name: Seq<char>| #[trigger]
                authenticator@.contains_key(name) <==> expected.contains_key(name) by {
                if names(after).contains(name) && name != principal@ {
                    let i = choose|i: int| 0 <= i < after.len() && names(after)[i] == name;
                    assert(names(before)[i] == name);
                }
                if names(before).contains(name) {
                    let i = choose|i: int| 0 <= i < before.len() && names(before)[i] == name;
                    assert(names(after)[i] == name);
                }
                if name == principal@ {
                    assert(names(after)[at as int] == name);
                }
            }
            assert forall|name: Seq<char>| #[trigger]
                authenticator@.contains_key(name) implies authenticator@[name] == expected[name] by {
                if name == principal@ {
                    Self::lemma_lookup(after, at as int);
                } else {
                    assert(expected.contains_key(name));
                    let i = names(before).index_of(name);
                    assert(names(before)[i] == name);
                    assert(after[i] == before[i]);
                    Self::lemma_lookup(after, i);
                }
            }
            assert(authenticator@ =~= expected);
        }
        authenticator
    }

    /// The position of a principal, or the number of principals.
    fn position(&self, name: &str) -> (position: (usize, bool))
        ensures
            position.0 <= self.principals@.len(),
            position.1 == names(self.principals@).contains(name@),
            position.1 == (position.0 < self.principals@.len()),
            position.1 ==> self.principals@[position.0 as int].name@ == name@,
    {
        let ghost all = names(self.principals@);
        let mut i: usize = 0;
        while i < self.principals.len()
            invariant
                i <= self.principals@.len(),
                all == names(self.principals@),
                forall|j: int| 0 <= j < i ==> #[trigger] all[j] != name@,
            decreases self.principals.len() - i,
        {
            if text_equal(self.principals[i].name.as_str(), name) {
                assert(all[i as int] == name@);
                return (i, true);
            }
            assert(all[i as int] != name@);
            i += 1;
        }
        (i, false)
    }
}

impl<I> Default for StaticAuthenticator<I> where I: Clone + Send + Sync + 'static {
    fn default() -> (authenticator: Self)
        ensures
            authenticator@ == Map::<Seq<char>, (Seq<u8>, I)>::empty(),
    {
        StaticAuthenticator::new()
    }
}

impl<I> Authenticator for StaticAuthenticator<I> where I: Clone + Send + Sync + 'static {
    type Identity = I;

    fn authenticate(&self, credentials: &Credentials) -> (found: Result<Option<I>, Error>)
        ensures
            match found {
                Ok(Some(identity)) => {
                    &&& self@.contains_key(credentials.name())
                    &&& self@[credentials.name()].0 == credentials.key()
                    &&& call_ensures(I::clone, (&self@[credentials.name()].1,), identity)
                },
                Ok(None) => self@.contains_key(credentials.name()) ==> self@[credentials.name()].0
                    != credentials.key(),
                Err(_) => false,
            },
    {
        proof {
            use_type_invariant(self);
        }
        let (at, known) = self.position(credentials.principal());
        if !known {
            return Ok(None);
        }
        let principal = &self.principals[at];
        proof {
            Self::lemma_lookup(self.principals@, at as int);
        }
        if bytes_equal(principal.secret.as_slice(), credentials.secret()) {
            Ok(Some(principal.identity.clone()))
        } else {
            Ok(None)
        }
    }
}

/// Permission handler that grants every permission.
pub struct AllowAllPermissions<I> {
    identity: PhantomData<I>,
}

impl<I> AllowAllPermissions<I> where I: Clone + Send + Sync + 'static {
    /// Creates an allow-all permission handler.
    #[must_use]
    pub fn new() -> Self {
        AllowAllPermissions { identity: PhantomData }
    }
}

impl<I> Default for AllowAllPermissions<I> where I: Clone + Send + Sync + 'static {
    fn default() -> Self {
        AllowAllPermissions::new()
    }
}

impl<I> PermissionHandler<I> for AllowAllPermissions<I> where I: Clone + Send + Sync + 'static {
    fn has_system_permission(&self, identity: &I, permission: SystemPermission) -> (granted: bool)
        ensures
            granted,
    {
        true
    }

    fn has_keyspace_permission(
        &self,
        identity: &I,
        keyspace: &str,
        permission: KeyspacePermission,
    ) -> (granted: bool)
        ensures
            granted,
    {
        true
    }
}

/// One keyspace permission that a [`StaticPermissionHandler`] grants.
struct Grant {
    keyspace: String,
    permission: KeyspacePermission,
}

/// Static permission handler that grants the same permissions to every
/// identity.
pub struct StaticPermissionHandler<I> {
    system_grants: Vec<SystemPermission>,
    keyspace_grants: Vec<Grant>,
    identity: PhantomData<I>,
}

spec fn grants(keyspace_grants: Seq<Grant>) -> Seq<(Seq<char>, KeyspacePermission)> {
    Seq::new(
        keyspace_grants.len(),
        |i: int| (keyspace_grants[i].keyspace@, keyspace_grants[i].permission),
    )
}

proof fn lemma_push_to_set<T>(items: Seq<T>, item: T)
    ensures
        items.push(item).to_set() == items.to_set().insert(item),
{
    let longer = items.push(item);
    assert forall|x: T| longer.contains(x) <==> items.contains(x) || x == item by {
        if items.contains(x) {
            let i = choose|i: int| 0 <= i < items.len() && items[i] == x;
            assert(longer[i] == x);
        }
        if longer.contains(x) && x != item {
            let i = choose|i: int| 0 <= i < longer.len() && longer[i] == x;
            assert(items[i] == x);
        }
        assert(longer[items.len() as int] == item);
    }
    assert(longer.to_set() =~= items.to_set().insert(item));
}

impl<I> StaticPermissionHandler<I> {
    /// The granted system permissions.
    pub closed spec fn system_permissions(self) -> Set<SystemPermission> {
        self.system_grants@.to_set()
    }

    /// The granted keyspace permissions, each with the name of the keyspace.
    pub closed spec fn keyspace_permissions(self) -> Set<(Seq<char>, KeyspacePermission)> {
        grants(self.keyspace_grants@).to_set()
    }
}

impl<I> StaticPermissionHandler<I> where I: Clone + Send + Sync + 'static {
    /// Creates a static permission handler with no permissions.
    #[must_use]
    pub fn new() -> (handler: Self)
        ensures
            handler.system_permissions() == Set::<SystemPermission>::empty(),
            handler.keyspace_permissions() == Set::<(Seq<char>, KeyspacePermission)>::empty(),
    {
        let handler = StaticPermissionHandler {
            system_grants: Vec::new(),
            keyspace_grants: Vec::new(),
            identity: PhantomData,
        };
        assert(handler.system_permissions() =~= Set::empty());
        assert(handler.keyspace_permissions() =~= Set::empty());
        handler
    }

    /// Grants a system permission.
    #[must_use]
    pub fn with_system_permission(self, permission: SystemPermission) -> (handler: Self)
        ensures
            handler.system_permissions() == self.system_permissions().insert(permission),
            handler.keyspace_permissions() == self.keyspace_permissions(),
    {
        let mut handler = self;
        if handler.grants_system(permission) {
            assert(self.system_permissions().insert(permission) =~= self.system_permissions());
            return handler;
        }
        handler.system_grants.push(permission);
        proof {
            lemma_push_to_set(self.system_grants@, permission);
        }
        handler
    }

    /// Grants a keyspace permission.
    #[must_use]
    pub fn with_keyspace_permission(self, keyspace: String, permission: KeyspacePermission) -> (
    handler: Self)
        ensures
            handler.system_permissions() == self.system_permissions(),
            handler.keyspace_permissions() == self.keyspace_permissions().insert(
                (keyspace@, permission),
            ),
    {
        let mut handler = self;
        if handler.grants_keyspace(keyspace.as_str(), permission) {
            assert(self.keyspace_permissions().insert((keyspace@, permission))
                =~= self.keyspace_permissions());
            return handler;
        }
        handler.keyspace_grants.push(Grant { keyspace, permission });
        proof {
            let before = grants(self.keyspace_grants@);
            assert(grants(handler.keyspace_grants@) =~= before.push((keyspace@, permission)));
            lemma_push_to_set(before, (keyspace@, permission));
        }
        handler
    }

    fn grants_system(&self, permission: SystemPermission) -> (granted: bool)
        ensures
            granted == self.system_permissions().contains(permission),
    {
        let mut i: usize = 0;
        while i < self.system_grants.len()
            invariant
                i <= self.system_grants.len(),
                forall|j: int| 0 <= j < i ==> #[trigger] self.system_grants@[j] != permission,
            decreases self.system_grants.len() - i,
        {
            if self.system_grants[i] == permission {
                assert(self.system_grants@.contains(self.system_grants@[i as int]));
                return true;
            }
            i += 1;
        }
        false
    }

    fn grants_keyspace(&self, keyspace: &str, permission: KeyspacePermission) -> (granted: bool)
        ensures
            granted == self.keyspace_permissions().contains((keyspace@, permission)),
    {
        let ghost all = grants(self.keyspace_grants@);
        let mut i: usize = 0;
        while i < self.keyspace_grants.len()
            invariant
                i <= self.keyspace_grants.len(),
                all == grants(self.keyspace_grants@),
                forall|j: int| 0 <= j < i ==> #[trigger] all[j] != (keyspace@, permission),
            decreases self.keyspace_grants.len() - i,
        {
            if self.keyspace_grants[i].permission == permission && text_equal(
                self.keyspace_grants[i].keyspace.as_str(),
                keyspace,
            ) {
                assert(all[i as int] == (keyspace@, permission));
                assert(all.contains((keyspace@, permission)));
                return true;
            }
            assert(all[i as int] != (keyspace@, permission));
            i += 1;
        }
        false
    }
}

impl<I> Default for StaticPermissionHandler<I> where I: Clone + Send + Sync + 'static {
    fn default() -> (handler: Self)
        ensures
            handler.system_permissions() == Set::<SystemPermission>::empty(),
            handler.keyspace_permissions() == Set::<(Seq<char>, KeyspacePermission)>::empty(),
    {
        StaticPermissionHandler::new()
    }
}

impl<I> PermissionHandler<I> for StaticPermissionHandler<I> where I: Clone + Send + Sync + 'static {
    fn has_system_permission(&self, identity: &I, permission: SystemPermission) -> (granted: bool)
        ensures
            granted == self.system_permissions().contains(permission),
    {
        self.grants_system(permission)
    }

    fn has_keyspace_permission(
        &self,
        identity: &I,
        keyspace: &str,
        permission: KeyspacePermission,
    ) -> (granted: bool)
        ensures
            granted == self.keyspace_permissions().contains((keyspace@, permission)),
    {
        self.grants_keyspace(keyspace, permission)
    }
}

/// Authorizor that returns the same authorization labels for every identity.
#[derive(Debug)]
pub struct StaticAuthorizor {
    auths: Authorizations,
}

impl View for StaticAuthorizor {
    type V = Set<Seq<char>>;

    closed spec fn view(&self) -> Set<Seq<char>> {
        self.auths@
    }
}

impl Clone for StaticAuthorizor {
    fn clone(&self) -> (copy: Self)
        ensures
            copy@ == self@,
    {
        StaticAuthorizor { auths: self.auths.clone() }
    }
}

impl StaticAuthorizor {
    /// Creates a static authorizor.
    #[must_use]
    pub fn new(auths: Authorizations) -> (authorizor: Self)
        ensures
            authorizor@ == auths@,
    {
        StaticAuthorizor { auths }
    }
}

impl<I> Authorizor<I> for StaticAuthorizor where I: Clone + Send + Sync + 'static {
    fn authorizations(&self, identity: &I) -> (resolved: Result<Authorizations, Error>)
        ensures
            resolved matches Ok(auths) && auths@ == self@,
    {
        Ok(self.auths.clone())
    }
}

} // verus!
