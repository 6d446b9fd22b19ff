//! Laws of secure transactions: permission is denied before anything is
//! staged, and scans and reads agree.

use vstd::prelude::*;

use crate::access::laws::{
    decrypts_once, lemma_scan_agrees_with_fetch, lemma_secure_prefix_scan_is_exact, reads_in_tx,
    scannable, scans_contents,
};
use crate::access::{
    deletes, gets_in_tx, inserts, scans, secure_scanned, SecureFetch, SecureScan,
};
use crate::audit::AuditSink;
use crate::cell::{EntryView, VersionScan};
use crate::composite::{encoded_key, KeyView};
use crate::crypto::CryptoProvider;
use crate::error::Error;
use crate::providers::laws::{
    always_grants, lemma_granted_permission_clears, lemma_missing_permission_refuses, never_grants,
    refused_for,
};
use crate::providers::{Authenticator, Authorizor, KeyspacePermission, PermissionHandler};
use crate::scan::laws::selected_by;
use crate::storage::{lists, Mutation, StoredView};
use crate::tx::{
    OptimisticSecureTxKeyspace, OptimisticSecureWriteTransaction, SingleWriterSecureTxKeyspace,
    SingleWriterSecureWriteTransaction,
};

verus! {

/// Without write permission of the captured session, nothing is staged to be
/// written in a single-writer transaction.
pub proof fn lemma_single_writer_insert_needs_write_permission<A, P, Z, S, C>(
    tx: SingleWriterSecureWriteTransaction<A, P, Z, S>,
    keyspace: SingleWriterSecureTxKeyspace<C>,
    key: KeyView,
    value: Seq<u8>,
    outcome: Result<Mutation, Error>,
) where
    A: Authenticator,
    P: PermissionHandler<A::Identity>,
    Z: Authorizor<A::Identity>,
    S: AuditSink<A::Identity>,
    C: CryptoProvider,

    requires
        never_grants(
            tx.security(),
            tx.session().identity,
            keyspace.logical_name(),
            KeyspacePermission::Write,
        ),
        tx.inserts_version(keyspace, key, value, outcome),
    ensures
        outcome matches Err(error) && refused_for(KeyspacePermission::Write, error),
{
    lemma_missing_permission_refuses(
        tx.security(),
        tx.session().identity,
        keyspace.logical_name(),
        KeyspacePermission::Write,
    );
}

/// Without delete permission of the captured session, nothing is staged to be
/// deleted in a single-writer transaction.
pub proof fn lemma_single_writer_delete_needs_delete_permission<A, P, Z, S, C>(
    tx: SingleWriterSecureWriteTransaction<A, P, Z, S>,
    keyspace: SingleWriterSecureTxKeyspace<C>,
    key: KeyView,
    outcome: Result<Mutation, Error>,
) where
    A: Authenticator,
    P: PermissionHandler<A::Identity>,
    Z: Authorizor<A::Identity>,
    S: AuditSink<A::Identity>,
    C: CryptoProvider,

    requires
        never_grants(
            tx.security(),
            tx.session().identity,
            keyspace.logical_name(),
            KeyspacePermission::Delete,
        ),
        tx.deletes_version(keyspace, key, outcome),
    ensures
        outcome matches Err(error) && refused_for(KeyspacePermission::Delete, error),
{
    lemma_missing_permission_refuses(
        tx.security(),
        tx.session().identity,
        keyspace.logical_name(),
        KeyspacePermission::Delete,
    );
}

/// Without read permission of the captured session, nothing is looked up or
/// scanned in a single-writer transaction.
pub proof fn lemma_single_writer_reads_need_read_permission<A, P, Z, S, C>(
    tx: SingleWriterSecureWriteTransaction<A, P, Z, S>,
    keyspace: SingleWriterSecureTxKeyspace<C>,
    key: KeyView,
    fetched: Result<SecureFetch<C>, Error>,
    fields: Option<Seq<Seq<u8>>>,
    limits: VersionScan,
    scanning: Result<SecureScan<C>, Error>,
) where
    A: Authenticator,
    P: PermissionHandler<A::Identity>,
    Z: Authorizor<A::Identity>,
    S: AuditSink<A::Identity>,
    C: CryptoProvider,

    requires
        never_grants(
            tx.security(),
            tx.session().identity,
            keyspace.logical_name(),
            KeyspacePermission::Read,
        ),
        tx.gets_version(keyspace, key, fetched),
        tx.scans_prefix(keyspace, fields, limits, scanning),
    ensures
        fetched matches Err(error) && refused_for(KeyspacePermission::Read, error),
        scanning matches Err(error) && refused_for(KeyspacePermission::Read, error),
{
    lemma_missing_permission_refuses(
        tx.security(),
        tx.session().identity,
        keyspace.logical_name(),
        KeyspacePermission::Read,
    );
}

/// Without write permission of the captured session, nothing is staged to be
/// written in an optimistic transaction.
pub proof fn lemma_optimistic_insert_needs_write_permission<A, P, Z, S, C>(
    tx: OptimisticSecureWriteTransaction<A, P, Z, S>,
    keyspace: OptimisticSecureTxKeyspace<C>,
    key: KeyView,
    value: Seq<u8>,
    outcome: Result<Mutation, Error>,
) where
    A: Authenticator,
    P: PermissionHandler<A::Identity>,
    Z: Authorizor<A::Identity>,
    S: AuditSink<A::Identity>,
    C: CryptoProvider,

    requires
        never_grants(
            tx.security(),
            tx.session().identity,
            keyspace.logical_name(),
            KeyspacePermission::Write,
        ),
        tx.inserts_version(keyspace, key, value, outcome),
    ensures
        outcome matches Err(error) && refused_for(KeyspacePermission::Write, error),
{
    lemma_missing_permission_refuses(
        tx.security(),
        tx.session().identity,
        keyspace.logical_name(),
        KeyspacePermission::Write,
    );
}

/// Without delete permission of the captured session, nothing is staged to be
/// deleted in an optimistic transaction.
pub proof fn lemma_optimistic_delete_needs_delete_permission<A, P, Z, S, C>(
    tx: OptimisticSecureWriteTransaction<A, P, Z, S>,
    keyspace: OptimisticSecureTxKeyspace<C>,
    key: KeyView,
    outcome: Result<Mutation, Error>,
) where
    A: Authenticator,
    P: PermissionHandler<A::Identity>,
    Z: Authorizor<A::Identity>,
    S: AuditSink<A::Identity>,
    C: CryptoProvider,

    requires
        never_grants(
            tx.security(),
            tx.session().identity,
            keyspace.logical_name(),
            KeyspacePermission::Delete,
        ),
        tx.deletes_version(keyspace, key, outcome),
    ensures
        outcome matches Err(error) && refused_for(KeyspacePermission::Delete, error),
{
    lemma_missing_permission_refuses(
        tx.security(),
        tx.session().identity,
        keyspace.logical_name(),
        KeyspacePermission::Delete,
    );
}

/// Without read permission of the captured session, nothing is looked up or
/// scanned in an optimistic transaction.
pub proof fn lemma_optimistic_reads_need_read_permission<A, P, Z, S, C>(
    tx: OptimisticSecureWriteTransaction<A, P, Z, S>,
    keyspace: OptimisticSecureTxKeyspace<C>,
    key: KeyView,
    fetched: Result<SecureFetch<C>, Error>,
    fields: Option<Seq<Seq<u8>>>,
    limits: VersionScan,
    scanning: Result<SecureScan<C>, Error>,
) where
    A: Authenticator,
    P: PermissionHandler<A::Identity>,
    Z: Authorizor<A::Identity>,
    S: AuditSink<A::Identity>,
    C: CryptoProvider,

    requires
        never_grants(
            tx.security(),
            tx.session().identity,
            keyspace.logical_name(),
            KeyspacePermission::Read,
        ),
        tx.gets_version(keyspace, key, fetched),
        tx.scans_prefix(keyspace, fields, limits, scanning),
    ensures
        fetched matches Err(error) && refused_for(KeyspacePermission::Read, error),
        scanning matches Err(error) && refused_for(KeyspacePermission::Read, error),
{
    lemma_missing_permission_refuses(
        tx.security(),
        tx.session().identity,
        keyspace.logical_name(),
        KeyspacePermission::Read,
    );
}

/// In a single-writer transaction a scan without a limit and a read of one version
/// agree on what the transaction sees: where the version, if it is listed, has
/// one decryption, the scan returns it with a value exactly if the prefix and the
/// timestamp bounds select it and reading it gives that value.
pub proof fn lemma_single_writer_scan_agrees_with_read<A, P, Z, S, C>(
    tx: SingleWriterSecureWriteTransaction<A, P, Z, S>,
    keyspace: SingleWriterSecureTxKeyspace<C>,
    contents: Map<Seq<u8>, Seq<u8>>,
    fields: Seq<Seq<u8>>,
    limits: VersionScan,
    scan: SecureScan<C>,
    listing: Seq<StoredView>,
    entries: Seq<EntryView>,
    key: KeyView,
    value: Seq<u8>,
    fetch: SecureFetch<C>,
    outcome: Result<Option<Seq<u8>>, Error>,
) where
    A: Authenticator,
    P: PermissionHandler<A::Identity>,
    Z: Authorizor<A::Identity>,
    S: AuditSink<A::Identity>,
    C: CryptoProvider,

    requires
        fields.len() <= 4,
        limits.max_versions is None,
        decrypts_once(keyspace.encryption(), listing, encoded_key(key)),
        tx.scans_prefix(keyspace, Some(fields), limits, Ok(scan)),
        lists(contents, scan.wanted().range, listing),
        secure_scanned(
            scan.limits(),
            scan.auths(),
            scan.encryption(),
            scan.found(),
            listing,
            Ok(entries),
        ),
        tx.gets_version(keyspace, key, Ok(fetch)),
        reads_in_tx(contents, Ok(fetch), outcome),
    ensures
        entries.contains(EntryView { key, value }) <==> {
            &&& selected_by(fields, key)
            &&& limits.selects(key.timestamp)
            &&& outcome == Ok::<Option<Seq<u8>>, Error>(Some(value))
        },
{
    lemma_scan_agrees_with_fetch(
        contents,
        keyspace.raw(),
        keyspace.encryption(),
        tx.session().auths@,
        fields,
        scan.wanted().range,
        listing,
        limits,
        entries,
        key,
        value,
        fetch,
        outcome,
    );
}

/// A scan in a single-writer transaction succeeds where every entry that the transaction
/// sees in the range can be taken. It then returns, each with a decryption of
/// its value, in key order and up to its limit, exactly the versions that the
/// transaction sees, the prefix selects, the timestamp bounds include and the
/// captured session may see.
pub proof fn lemma_single_writer_scan_is_exact<A, P, Z, S, C>(
    tx: SingleWriterSecureWriteTransaction<A, P, Z, S>,
    keyspace: SingleWriterSecureTxKeyspace<C>,
    contents: Map<Seq<u8>, Seq<u8>>,
    fields: Seq<Seq<u8>>,
    limits: VersionScan,
    scan: SecureScan<C>,
    listing: Seq<StoredView>,
    outcome: Result<Seq<EntryView>, Error>,
) where
    A: Authenticator,
    P: PermissionHandler<A::Identity>,
    Z: Authorizor<A::Identity>,
    S: AuditSink<A::Identity>,
    C: CryptoProvider,

    requires
        fields.len() <= 4,
        tx.scans_prefix(keyspace, Some(fields), limits, Ok(scan)),
        lists(contents, scan.wanted().range, listing),
        scannable(limits, tx.session().auths@, keyspace.encryption(), listing),
        secure_scanned(
            scan.limits(),
            scan.auths(),
            scan.encryption(),
            scan.found(),
            listing,
            outcome,
        ),
    ensures
        scans_contents(
            contents,
            fields,
            listing,
            limits,
            tx.session().auths@,
            keyspace.encryption(),
            outcome,
        ),
{
    lemma_secure_prefix_scan_is_exact(
        contents,
        fields,
        scan.wanted().range,
        listing,
        limits,
        tx.session().auths@,
        keyspace.encryption(),
        outcome,
    );
}

/// In an optimistic transaction a scan without a limit and a read of one version
/// agree on what the transaction sees: where the version, if it is listed, has
/// one decryption, the scan returns it with a value exactly if the prefix and the
/// timestamp bounds select it and reading it gives that value.
pub proof fn lemma_optimistic_scan_agrees_with_read<A, P, Z, S, C>(
    tx: OptimisticSecureWriteTransaction<A, P, Z, S>,
    keyspace: OptimisticSecureTxKeyspace<C>,
    contents: Map<Seq<u8>, Seq<u8>>,
    fields: Seq<Seq<u8>>,
    limits: VersionScan,
    scan: SecureScan<C>,
    listing: Seq<StoredView>,
    entries: Seq<EntryView>,
    key: KeyView,
    value: Seq<u8>,
    fetch: SecureFetch<C>,
    outcome: Result<Option<Seq<u8>>, Error>,
) where
    A: Authenticator,
    P: PermissionHandler<A::Identity>,
    Z: Authorizor<A::Identity>,
    S: AuditSink<A::Identity>,
    C: CryptoProvider,

    requires
        fields.len() <= 4,
        limits.max_versions is None,
        decrypts_once(keyspace.encryption(), listing, encoded_key(key)),
        tx.scans_prefix(keyspace, Some(fields), limits, Ok(scan)),
        lists(contents, scan.wanted().range, listing),
        secure_scanned(
            scan.limits(),
            scan.auths(),
            scan.encryption(),
            scan.found(),
            listing,
            Ok(entries),
        ),
        tx.gets_version(keyspace, key, Ok(fetch)),
        reads_in_tx(contents, Ok(fetch), outcome),
    ensures
        entries.contains(EntryView { key, value }) <==> {
            &&& selected_by(fields, key)
            &&& limits.selects(key.timestamp)
            &&& outcome == Ok::<Option<Seq<u8>>, Error>(Some(value))
        },
{
    lemma_scan_agrees_with_fetch(
        contents,
        keyspace.raw(),
        keyspace.encryption(),
        tx.session().auths@,
        fields,
        scan.wanted().range,
        listing,
        limits,
        entries,
        key,
        value,
        fetch,
        outcome,
    );
}

/// A scan in an optimistic transaction succeeds where every entry that the transaction
/// sees in the range can be taken. It then returns, each with a decryption of
/// its value, in key order and up to its limit, exactly the versions that the
/// transaction sees, the prefix selects, the timestamp bounds include and the
/// captured session may see.
pub proof fn lemma_optimistic_scan_is_exact<A, P, Z, S, C>(
    tx: OptimisticSecureWriteTransaction<A, P, Z, S>,
    keyspace: OptimisticSecureTxKeyspace<C>,
    contents: Map<Seq<u8>, Seq<u8>>,
    fields: Seq<Seq<u8>>,
    limits: VersionScan,
    scan: SecureScan<C>,
    listing: Seq<StoredView>,
    outcome: Result<Seq<EntryView>, Error>,
) where
    A: Authenticator,
    P: PermissionHandler<A::Identity>,
    Z: Authorizor<A::Identity>,
    S: AuditSink<A::Identity>,
    C: CryptoProvider,

    requires
        fields.len() <= 4,
        tx.scans_prefix(keyspace, Some(fields), limits, Ok(scan)),
        lists(contents, scan.wanted().range, listing),
        scannable(limits, tx.session().auths@, keyspace.encryption(), listing),
        secure_scanned(
            scan.limits(),
            scan.auths(),
            scan.encryption(),
            scan.found(),
            listing,
            outcome,
        ),
    ensures
        scans_contents(
            contents,
            fields,
            listing,
            limits,
            tx.session().auths@,
            keyspace.encryption(),
            outcome,
        ),
{
    lemma_secure_prefix_scan_is_exact(
        contents,
        fields,
        scan.wanted().range,
        listing,
        limits,
        tx.session().auths@,
        keyspace.encryption(),
        outcome,
    );
}

/// In a single-writer transaction, where there is no audit sink, the one permission of an
/// operation is all that it needs: if it is granted to the captured session,
/// what the operation does is what it does with clearance and with the captured
/// labels.
pub proof fn lemma_single_writer_granted_permissions_suffice<A, P, Z, S, C>(
    tx: SingleWriterSecureWriteTransaction<A, P, Z, S>,
    keyspace: SingleWriterSecureTxKeyspace<C>,
    key: KeyView,
    value: Seq<u8>,
    fields: Option<Seq<Seq<u8>>>,
    limits: VersionScan,
    written: Result<Mutation, Error>,
    removed: Result<Mutation, Error>,
    fetched: Result<SecureFetch<C>, Error>,
    scanning: Result<SecureScan<C>, Error>,
) where
    A: Authenticator,
    P: PermissionHandler<A::Identity>,
    Z: Authorizor<A::Identity>,
    S: AuditSink<A::Identity>,
    C: CryptoProvider,

    requires
        tx.security().audit() is None,
        tx.inserts_version(keyspace, key, value, written),
        tx.deletes_version(keyspace, key, removed),
        tx.gets_version(keyspace, key, fetched),
        tx.scans_prefix(keyspace, fields, limits, scanning),
    ensures
        ({
            let security = tx.security();
            let identity = tx.session().identity;
            let name = keyspace.logical_name();
            &&& always_grants(security, identity, name, KeyspacePermission::Write) ==> inserts(
                Ok(()),
                keyspace.raw(),
                keyspace.encryption(),
                key,
                value,
                written,
            )
            &&& always_grants(security, identity, name, KeyspacePermission::Delete) ==> deletes(
                Ok(()),
                keyspace.raw(),
                key,
                removed,
            )
            &&& always_grants(security, identity, name, KeyspacePermission::Read) ==> gets_in_tx(
                Ok(()),
                keyspace.raw(),
                keyspace.encryption(),
                tx.session().auths@,
                key,
                fetched,
            ) && scans(
                Ok(()),
                keyspace.raw(),
                keyspace.encryption(),
                tx.session().auths@,
                fields,
                limits,
                scanning,
            )
        }),
{
    let security = tx.security();
    let identity = tx.session().identity;
    let name = keyspace.logical_name();
    if always_grants(security, identity, name, KeyspacePermission::Write) {
        lemma_granted_permission_clears(security, identity, name, KeyspacePermission::Write);
    }
    if always_grants(security, identity, name, KeyspacePermission::Delete) {
        lemma_granted_permission_clears(security, identity, name, KeyspacePermission::Delete);
    }
    if always_grants(security, identity, name, KeyspacePermission::Read) {
        lemma_granted_permission_clears(security, identity, name, KeyspacePermission::Read);
    }
}

/// In an optimistic transaction, where there is no audit sink, the one permission of an
/// operation is all that it needs: if it is granted to the captured session,
/// what the operation does is what it does with clearance and with the captured
/// labels.
pub proof fn lemma_optimistic_granted_permissions_suffice<A, P, Z, S, C>(
    tx: OptimisticSecureWriteTransaction<A, P, Z, S>,
    keyspace: OptimisticSecureTxKeyspace<C>,
    key: KeyView,
    value: Seq<u8>,
    fields: Option<Seq<Seq<u8>>>,
    limits: VersionScan,
    written: Result<Mutation, Error>,
    removed: Result<Mutation, Error>,
    fetched: Result<SecureFetch<C>, Error>,
    scanning: Result<SecureScan<C>, Error>,
) where
    A: Authenticator,
    P: PermissionHandler<A::Identity>,
    Z: Authorizor<A::Identity>,
    S: AuditSink<A::Identity>,
    C: CryptoProvider,

    requires
        tx.security().audit() is None,
        tx.inserts_version(keyspace, key, value, written),
        tx.deletes_version(keyspace, key, removed),
        tx.gets_version(keyspace, key, fetched),
        tx.scans_prefix(keyspace, fields, limits, scanning),
    ensures
        ({
            let security = tx.security();
            let identity = tx.session().identity;
            let name = keyspace.logical_name();
            &&& always_grants(security, identity, name, KeyspacePermission::Write) ==> inserts(
                Ok(()),
                keyspace.raw(),
                keyspace.encryption(),
                key,
                value,
                written,
            )
            &&& always_grants(security, identity, name, KeyspacePermission::Delete) ==> deletes(
                Ok(()),
                keyspace.raw(),
                key,
                removed,
            )
            &&& always_grants(security, identity, name, KeyspacePermission::Read) ==> gets_in_tx(
                Ok(()),
                keyspace.raw(),
                keyspace.encryption(),
                tx.session().auths@,
                key,
                fetched,
            ) && scans(
                Ok(()),
                keyspace.raw(),
                keyspace.encryption(),
                tx.session().auths@,
                fields,
                limits,
                scanning,
            )
        }),
{
    let security = tx.security();
    let identity = tx.session().identity;
    let name = keyspace.logical_name();
    if always_grants(security, identity, name, KeyspacePermission::Write) {
        lemma_granted_permission_clears(security, identity, name, KeyspacePermission::Write);
    }
    if always_grants(security, identity, name, KeyspacePermission::Delete) {
        lemma_granted_permission_clears(security, identity, name, KeyspacePermission::Delete);
    }
    if always_grants(security, identity, name, KeyspacePermission::Read) {
        lemma_granted_permission_clears(security, identity, name, KeyspacePermission::Read);
    }
}

} // verus!
