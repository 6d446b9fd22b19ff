use secure_keyspaces::providers::{admit_identity, judge_permission, refuse_credentials};
use secure_keyspaces::{
    AllowAllPermissions, AuditEvent, AuditFailureMode, AuditSink, Authenticator, Authorizations,
    Authorizor, Credentials, Error, KeyspacePermission, PermissionHandler, SecurityProviders,
    Session, StaticAuthenticator, StaticAuthorizor, StaticPermissionHandler, SystemPermission,
};
use std::sync::{Arc, Mutex};

fn auths(labels: &[&str]) -> Authorizations {
    Authorizations::from_labels(labels.iter().map(|label| label.to_string()).collect()).unwrap()
}

fn credentials(principal: &str, secret: &str) -> Credentials {
    Credentials::new(principal.to_string(), secret.as_bytes().to_vec())
}

fn principals() -> StaticAuthenticator<u8> {
    StaticAuthenticator::new()
        .with_principal("alice".to_string(), b"a".to_vec(), 1)
        .with_principal("bob".to_string(), b"b".to_vec(), 2)
}

#[test]
fn credentials_keep_principal_and_secret() {
    let alice = credentials("alice", "a");

    assert_eq!("alice", alice.principal());
    assert_eq!(b"a", alice.secret());
    assert_eq!(alice, alice.clone());
}

#[test]
fn static_principals_need_their_own_secret() {
    let known = principals();

    assert_eq!(Ok(Some(1)), known.authenticate(&credentials("alice", "a")));
    assert_eq!(Ok(Some(2)), known.authenticate(&credentials("bob", "b")));
    assert_eq!(Ok(None), known.authenticate(&credentials("alice", "b")));
    assert_eq!(Ok(None), known.authenticate(&credentials("alice", "")));
    assert_eq!(Ok(None), known.authenticate(&credentials("carol", "a")));
    // Adding a principal again replaces it.
    let changed = known.with_principal("alice".to_string(), b"new".to_vec(), 3);
    assert_eq!(Ok(None), changed.authenticate(&credentials("alice", "a")));
    assert_eq!(Ok(Some(3)), changed.authenticate(&credentials("alice", "new")));
    assert_eq!(Ok(Some(2)), changed.authenticate(&credentials("bob", "b")));
    let nobody = StaticAuthenticator::<u8>::default();
    assert_eq!(Ok(None), nobody.authenticate(&credentials("alice", "a")));
}

#[test]
fn static_permissions_are_per_keyspace() {
    let handler = StaticPermissionHandler::<u8>::default()
        .with_system_permission(SystemPermission::Compact)
        .with_system_permission(SystemPermission::Compact)
        .with_keyspace_permission("events".to_string(), KeyspacePermission::Read)
        .with_keyspace_permission("events".to_string(), KeyspacePermission::Read)
        .with_keyspace_permission("users".to_string(), KeyspacePermission::Alter);

    assert!(handler.has_system_permission(&1, SystemPermission::Compact));
    assert!(!handler.has_system_permission(&1, SystemPermission::ManageUsers));
    assert!(handler.has_keyspace_permission(&1, "events", KeyspacePermission::Read));
    assert!(!handler.has_keyspace_permission(&1, "events", KeyspacePermission::Alter));
    assert!(handler.has_keyspace_permission(&1, "users", KeyspacePermission::Alter));
    assert!(!handler.has_keyspace_permission(&1, "users", KeyspacePermission::Read));
    let all = AllowAllPermissions::<u8>::default();
    assert!(all.has_system_permission(&1, SystemPermission::DropKeyspace));
    assert!(all.has_keyspace_permission(&1, "any", KeyspacePermission::Delete));
}

#[test]
fn static_labels_are_the_same_for_everyone() {
    let authorizor = StaticAuthorizor::new(auths(&["b", "a"])).clone();

    assert_eq!(Ok(auths(&["a", "b"])), authorizor.authorizations(&1u8));
    assert_eq!(Ok(auths(&["a", "b"])), authorizor.authorizations(&2u8));
}

#[test]
fn permissions_have_names() {
    assert_eq!(
        vec![
            "keyspace:read",
            "keyspace:write",
            "keyspace:delete",
            "keyspace:compact",
            "keyspace:alter",
        ],
        [
            KeyspacePermission::Read,
            KeyspacePermission::Write,
            KeyspacePermission::Delete,
            KeyspacePermission::Compact,
            KeyspacePermission::Alter,
        ]
        .map(KeyspacePermission::as_str)
        .to_vec(),
    );
}

#[test]
fn decisions_need_a_grant_and_an_audit() {
    let failed = Err(Error::Audit("audit sink failed"));
    let denied = Err(Error::PermissionDenied("keyspace:read"));

    assert_eq!(Ok(()), judge_permission(true, KeyspacePermission::Read, Ok(())));
    assert_eq!(denied, judge_permission(false, KeyspacePermission::Read, Ok(())));
    assert_eq!(failed, judge_permission(true, KeyspacePermission::Read, failed));
    assert_eq!(failed, judge_permission(false, KeyspacePermission::Read, failed));
    assert_eq!(Error::AuthenticationDenied, refuse_credentials(Ok(())));
    assert_eq!(Error::Audit("audit sink failed"), refuse_credentials(failed));
    assert_eq!(
        Ok(Session {
            identity: 1u8,
            auths: auths(&["a"]),
        }),
        admit_identity(1u8, auths(&["a"]), Ok(())),
    );
    assert_eq!(
        Err(Error::Audit("audit sink failed")),
        admit_identity(1u8, auths(&["a"]), failed),
    );
}

#[derive(Clone, Default)]
struct Sink {
    events: Arc<Mutex<Vec<String>>>,
}

impl AuditSink<u8> for Sink {
    fn record(&self, event: AuditEvent<'_, u8>) -> Result<(), Error> {
        self.events.lock().unwrap().push(format!("{event:?}"));
        Ok(())
    }
}

struct Broken;

impl Authorizor<u8> for Broken {
    fn authorizations(&self, _identity: &u8) -> Result<Authorizations, Error> {
        Err(Error::ProviderFailure("no labels"))
    }
}

impl Authenticator for Broken {
    type Identity = u8;

    fn authenticate(&self, _credentials: &Credentials) -> Result<Option<u8>, Error> {
        Err(Error::ProviderFailure("no directory"))
    }
}

#[test]
fn provider_failures_deny_sessions() {
    let no_labels = SecurityProviders::new(principals(), AllowAllPermissions::new(), Broken);
    assert_eq!(
        Err(Error::ProviderFailure("no labels")),
        no_labels.authenticate(&credentials("alice", "a")),
    );
    assert_eq!(
        Err(Error::AuthenticationDenied),
        no_labels.authenticate(&credentials("alice", "wrong")),
    );
    let no_directory = SecurityProviders::new(
        Broken,
        AllowAllPermissions::new(),
        StaticAuthorizor::new(auths(&[])),
    );
    assert_eq!(
        Err(Error::ProviderFailure("no directory")),
        no_directory.authenticate(&credentials("alice", "a")),
    );
}

#[test]
fn every_decision_is_audited_once() {
    let sink = Sink::default();
    let providers = SecurityProviders::new(
        principals(),
        StaticPermissionHandler::new()
            .with_keyspace_permission("events".to_string(), KeyspacePermission::Read),
        StaticAuthorizor::new(auths(&[])),
    )
    .with_audit_sink(sink.clone(), AuditFailureMode::FailClosed);

    assert!(providers.authenticate(&credentials("alice", "a")).is_ok());
    assert!(providers.authenticate(&credentials("alice", "b")).is_err());
    assert_eq!(
        Ok(()),
        providers.check_keyspace_permission(&1, "events", KeyspacePermission::Read),
    );
    assert_eq!(
        Err(Error::PermissionDenied("keyspace:write")),
        providers.check_keyspace_permission(&2, "events", KeyspacePermission::Write),
    );
    assert!(providers.audit_config().is_some());
    assert_eq!(
        vec![
            "AuthenticationSucceeded { identity: 1 }".to_string(),
            "AuthenticationFailed".to_string(),
            "KeyspaceAccess { identity: 1, keyspace: \"events\" }".to_string(),
            "AuthorizationDenied { identity: 2, keyspace: \"events\" }".to_string(),
        ],
        *sink.events.lock().unwrap(),
    );
}
