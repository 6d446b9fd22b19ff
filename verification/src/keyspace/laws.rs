//! Laws of secure keyspaces: every operation needs its own permission, and
//! scans and reads agree.

use vstd::prelude::*;

use crate::access::laws::{
    decrypts_once, lemma_hidden_version_is_not_scanned, lemma_scan_agrees_with_fetch,
    lemma_secure_prefix_scan_is_exact, reads, scannable, scans_contents,
};
use crate::access::{
    deletes, gets, inserts, scans, secure_scanned, SecureFetch, SecureScan,
};
use crate::audit::{AuditConfig, AuditSink};
use crate::cell::{EntryView, VersionScan};
use crate::composite::{encoded_key, KeyView};
use crate::crypto::{CryptoProvider, SecureKeyspaceOptions, ValueEncryption};
use crate::error::Error;
use crate::keyspace::{opens, refused_options, OpenKeyspace, SecureKeyspace, Session};
use crate::naming::{lemma_physical_names_are_reserved, physical_name, reserved};
use crate::providers::laws::{
    always_grants, lemma_granted_permission_clears, lemma_missing_permission_refuses, never_grants,
    refused_for,
};
use crate::providers::{Authenticator, Authorizor, KeyspacePermission, PermissionHandler};
use crate::scan::laws::selected_by;
use crate::storage::{lists, Keyspace, Mutation, StoredView};

verus! {

/// Without write permission nothing is written.
pub proof fn lemma_insert_needs_write_permission<A, P, Z, S, C>(
    keyspace: SecureKeyspace<A, P, Z, S, C>,
    session: Session<A::Identity>,
    key: KeyView,
    value: Seq<u8>,
    outcome: Result<Mutation, Error>,
) where
    A: Authenticator,
    P: PermissionHandler<A::Identity>,
    Z: Authorizor<A::Identity>,
    S: AuditSink<A::Identity>,
    C: CryptoProvider,

    requires
        never_grants(
            keyspace.security(),
            session.identity,
            keyspace.logical_name(),
            KeyspacePermission::Write,
        ),
        keyspace.inserts_version(session, key, value, outcome),
    ensures
        outcome matches Err(error) && refused_for(KeyspacePermission::Write, error),
{
    lemma_missing_permission_refuses(
        keyspace.security(),
        session.identity,
        keyspace.logical_name(),
        KeyspacePermission::Write,
    );
}

/// Without delete permission nothing is deleted.
pub proof fn lemma_delete_needs_delete_permission<A, P, Z, S, C>(
    keyspace: SecureKeyspace<A, P, Z, S, C>,
    session: Session<A::Identity>,
    key: KeyView,
    outcome: Result<Mutation, Error>,
) where
    A: Authenticator,
    P: PermissionHandler<A::Identity>,
    Z: Authorizor<A::Identity>,
    S: AuditSink<A::Identity>,
    C: CryptoProvider,

    requires
        never_grants(
            keyspace.security(),
            session.identity,
            keyspace.logical_name(),
            KeyspacePermission::Delete,
        ),
        keyspace.deletes_version(session, key, outcome),
    ensures
        outcome matches Err(error) && refused_for(KeyspacePermission::Delete, error),
{
    lemma_missing_permission_refuses(
        keyspace.security(),
        session.identity,
        keyspace.logical_name(),
        KeyspacePermission::Delete,
    );
}

/// Without read permission nothing is looked up or scanned.
pub proof fn lemma_reads_need_read_permission<A, P, Z, S, C>(
    keyspace: SecureKeyspace<A, P, Z, S, C>,
    session: Session<A::Identity>,
    key: KeyView,
    fetched: Result<Option<SecureFetch<C>>, Error>,
    fields: Option<Seq<Seq<u8>>>,
    limits: VersionScan,
    scanning: Result<SecureScan<C>, Error>,
) where
    A: Authenticator,
    P: PermissionHandler<A::Identity>,
    Z: Authorizor<A::Identity>,
    S: AuditSink<A::Identity>,
    C: CryptoProvider,

    requires
        never_grants(
            keyspace.security(),
            session.identity,
            keyspace.logical_name(),
            KeyspacePermission::Read,
        ),
        keyspace.gets_version(session, key, fetched),
        keyspace.scans_prefix(session, fields, limits, scanning),
    ensures
        fetched matches Err(error) && refused_for(KeyspacePermission::Read, error),
        scanning matches Err(error) && refused_for(KeyspacePermission::Read, error),
{
    lemma_missing_permission_refuses(
        keyspace.security(),
        session.identity,
        keyspace.logical_name(),
        KeyspacePermission::Read,
    );
}

/// A scan without a limit and a read of one version agree on what the keyspace
/// holds: where the version, if it is listed, has one decryption, the scan
/// returns it with a value exactly if the prefix and the timestamp bounds select
/// it and reading it gives that value.
pub proof fn lemma_scan_agrees_with_get<A, P, Z, S, C>(
    keyspace: SecureKeyspace<A, P, Z, S, C>,
    session: Session<A::Identity>,
    contents: Map<Seq<u8>, Seq<u8>>,
    fields: Seq<Seq<u8>>,
    limits: VersionScan,
    scan: SecureScan<C>,
    listing: Seq<StoredView>,
    entries: Seq<EntryView>,
    key: KeyView,
    value: Seq<u8>,
    fetched: Option<SecureFetch<C>>,
    outcome: Result<Option<Seq<u8>>, Error>,
) where
    A: Authenticator,
    P: PermissionHandler<A::Identity>,
    Z: Authorizor<A::Identity>,
    S: AuditSink<A::Identity>,
    C: CryptoProvider,

    requires
        fields.len() <= 4,
        limits.max_versions is None,
        decrypts_once(keyspace.encryption(), listing, encoded_key(key)),
        keyspace.scans_prefix(session, Some(fields), limits, Ok(scan)),
        lists(contents, scan.wanted().range, listing),
        secure_scanned(
            scan.limits(),
            scan.auths(),
            scan.encryption(),
            scan.found(),
            listing,
            Ok(entries),
        ),
        keyspace.gets_version(session, key, Ok(fetched)),
        reads(contents, Ok(fetched), outcome),
    ensures
        entries.contains(EntryView { key, value }) <==> {
            &&& selected_by(fields, key)
            &&& limits.selects(key.timestamp)
            &&& outcome == Ok::<Option<Seq<u8>>, Error>(Some(value))
        },
{
    match fetched {
        Some(fetch) => lemma_scan_agrees_with_fetch(
            contents,
            keyspace.raw(),
            keyspace.encryption(),
            session.auths@,
            fields,
            scan.wanted().range,
            listing,
            limits,
            entries,
            key,
            value,
            fetch,
            outcome,
        ),
        None => lemma_hidden_version_is_not_scanned(
            limits,
            session.auths@,
            keyspace.encryption(),
            listing,
            entries,
            EntryView { key, value },
        ),
    }
}

/// A scan succeeds where every entry of the range can be taken. It then returns,
/// each with a decryption of its value, in key order and up to its limit,
/// exactly the versions that the keyspace holds, the prefix selects, the
/// timestamp bounds include and the session may see.
pub proof fn lemma_scan_is_exact<A, P, Z, S, C>(
    keyspace: SecureKeyspace<A, P, Z, S, C>,
    session: Session<A::Identity>,
    contents: Map<Seq<u8>, Seq<u8>>,
    fields: Seq<Seq<u8>>,
    limits: VersionScan,
    scan: SecureScan<C>,
    listing: Seq<StoredView>,
    outcome: Result<Seq<EntryView>, Error>,
) where
    A: Authenticator,
    P: PermissionHandler<A::Identity>,
    Z: Authorizor<A::Identity>,
    S: AuditSink<A::Identity>,
    C: CryptoProvider,

    requires
        fields.len() <= 4,
        keyspace.scans_prefix(session, Some(fields), limits, Ok(scan)),
        lists(contents, scan.wanted().range, listing),
        scannable(limits, session.auths@, keyspace.encryption(), listing),
        secure_scanned(
            scan.limits(),
            scan.auths(),
            scan.encryption(),
            scan.found(),
            listing,
            outcome,
        ),
    ensures
        scans_contents(
            contents,
            fields,
            listing,
            limits,
            session.auths@,
            keyspace.encryption(),
            outcome,
        ),
{
    lemma_secure_prefix_scan_is_exact(
        contents,
        fields,
        scan.wanted().range,
        listing,
        limits,
        session.auths@,
        keyspace.encryption(),
        outcome,
    );
}

/// No raw keyspace that can be opened by name is behind a secure keyspace.
pub proof fn lemma_raw_names_reach_no_secure_keyspace(raw: Keyspace, name: Seq<char>)
    requires
        !reserved(raw@),
    ensures
        raw@ != physical_name(name),
{
    lemma_physical_names_are_reserved(name, name);
}

// ---------------------------------------------------------------------------
// Opening
// ---------------------------------------------------------------------------
/// A keyspace is opened as its options say: under the reserved name, with the
/// raw options handed on, encrypted exactly if an encryption is configured and
/// with that encryption, and with retention exactly if a policy is given and
/// with that policy.
pub proof fn lemma_opening_honours_options<C, I, S, O>(
    name: Seq<char>,
    options: SecureKeyspaceOptions<C, O>,
    audit: Option<AuditConfig<S>>,
    inner: Keyspace,
    encryption: Option<ValueEncryption<C>>,
    request: OpenKeyspace<I, S, O>,
)
    requires
        opens(name, options, audit, inner, encryption, request),
    ensures
        inner@ == "$fjall.secure."@ + name,
        request.keyspace == inner,
        request.create_options == options.create_options,
        options.encryption is None <==> encryption is None,
        options.encryption matches Some(config) ==> (encryption matches Some(used) && used.config()
            == config && used.keyspace() == name),
        options.retention is None <==> request.retention is None,
        options.retention matches Some(policy) ==> (request.retention matches Some(applied)
            && applied.retention() == policy && applied.keyspace() == name && applied.audit()
            == audit),
{
}

/// A keyspace is refused exactly if its retention policy would retain nothing.
pub proof fn lemma_options_are_refused_for_retention_only<C, O>(
    options: SecureKeyspaceOptions<C, O>,
)
    ensures
        refused_options(options) is Some <==> (options.retention matches Some(policy) && (
        policy.max_versions == Some(0usize) || (policy.ttl is Some && policy.ttl->Some_0@ == 0))),
        refused_options(options) matches Some(error) ==> error is InvalidPolicy,
{
}

// ---------------------------------------------------------------------------
// Granted permissions
// ---------------------------------------------------------------------------
/// Where there is no audit sink, the one permission of an operation is all that
/// it needs: if it is granted, what the operation does is what it does with
/// clearance.
pub proof fn lemma_granted_permissions_suffice<A, P, Z, S, C>(
    keyspace: SecureKeyspace<A, P, Z, S, C>,
    session: Session<A::Identity>,
    key: KeyView,
    value: Seq<u8>,
    fields: Option<Seq<Seq<u8>>>,
    limits: VersionScan,
    written: Result<Mutation, Error>,
    removed: Result<Mutation, Error>,
    fetched: Result<Option<SecureFetch<C>>, Error>,
    scanning: Result<SecureScan<C>, Error>,
) where
    A: Authenticator,
    P: PermissionHandler<A::Identity>,
    Z: Authorizor<A::Identity>,
    S: AuditSink<A::Identity>,
    C: CryptoProvider,

    requires
        keyspace.security().audit() is None,
        keyspace.inserts_version(session, key, value, written),
        keyspace.deletes_version(session, key, removed),
        keyspace.gets_version(session, key, fetched),
        keyspace.scans_prefix(session, fields, limits, scanning),
    ensures
        ({
            let security = keyspace.security();
            let identity = session.identity;
            let name = keyspace.logical_name();
            &&& always_grants(security, identity, name, KeyspacePermission::Write) ==> inserts(
                Ok(()),
                keyspace.raw(),
                keyspace.encryption(),
                key,
                value,
                written,
            )
            &&& always_grants(security, identity, name, KeyspacePermission::Delete) ==> deletes(
                Ok(()),
                keyspace.raw(),
                key,
                removed,
            )
            &&& always_grants(security, identity, name, KeyspacePermission::Read) ==> gets(
                Ok(()),
                keyspace.raw(),
                keyspace.encryption(),
                session.auths@,
                key,
                fetched,
            ) && scans(
                Ok(()),
                keyspace.raw(),
                keyspace.encryption(),
                session.auths@,
                fields,
                limits,
                scanning,
            )
        }),
{
    let security = keyspace.security();
    let identity = session.identity;
    let name = keyspace.logical_name();
    if always_grants(security, identity, name, KeyspacePermission::Write) {
        lemma_granted_permission_clears(security, identity, name, KeyspacePermission::Write);
    }
    if always_grants(security, identity, name, KeyspacePermission::Delete) {
        lemma_granted_permission_clears(security, identity, name, KeyspacePermission::Delete);
    }
    if always_grants(security, identity, name, KeyspacePermission::Read) {
        lemma_granted_permission_clears(security, identity, name, KeyspacePermission::Read);
    }
}

} // verus!
