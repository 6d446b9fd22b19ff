//! Secure retention policies and policy-aware compaction filters.

use std::marker::PhantomData;

use vstd::prelude::*;

use crate::audit::{record_audit, records, AuditConfig, AuditEvent, AuditSink, EventView};
use crate::composite::{decoded_key, CompositeKey, KeyView};
use crate::error::Error;
use crate::order::bytes_equal;
use crate::storage::Slice;

pub mod laws;

verus! {

/// A span of time.
#[derive(Clone, Copy, Debug, Eq, PartialEq)]
pub struct Ttl {
    secs: u64,
    subsec_nanos: u32,
}

/// Nanoseconds in a second.
pub const NANOS_PER_SEC: u32 = 1_000_000_000;

impl View for Ttl {
    type V = nat;

    /// The length of the span in nanoseconds.
    closed spec fn view(&self) -> nat {
        self.secs as nat * NANOS_PER_SEC as nat + self.subsec_nanos as nat
    }
}

impl Ttl {
    #[verifier::type_invariant]
    spec fn inv(self) -> bool {
        self.subsec_nanos < NANOS_PER_SEC
    }

    /// The whole seconds of the span.
    pub open spec fn seconds(self) -> nat {
        self@ / NANOS_PER_SEC as nat
    }

    /// Creates a span of seconds and nanoseconds; nanoseconds of a second or
    /// more are carried over into the seconds.
    #[must_use]
    pub fn new(secs: u64, nanos: u32) -> (ttl: Self)
        requires
            secs + nanos / NANOS_PER_SEC <= u64::MAX,
        ensures
            ttl@ == secs as nat * NANOS_PER_SEC as nat + nanos as nat,
            ttl@ == secs as nat * 1_000_000_000 + nanos as nat,
    {
        let carried: u32 = nanos / NANOS_PER_SEC;
        let subsec_nanos: u32 = nanos % NANOS_PER_SEC;
        assert((secs + carried) * NANOS_PER_SEC + subsec_nanos == secs * NANOS_PER_SEC + nanos)
            by (nonlinear_arith)
            requires
                nanos == carried * NANOS_PER_SEC + subsec_nanos,
        ;
        Ttl { secs: secs + carried as u64, subsec_nanos }
    }

    /// Creates a span of whole seconds.
    #[must_use]
    pub fn from_secs(secs: u64) -> (ttl: Self)
        ensures
            ttl@ == secs as nat * NANOS_PER_SEC as nat,
            ttl@ == secs as nat * 1_000_000_000,
            ttl.seconds() == secs,
    {
        Ttl { secs, subsec_nanos: 0 }
    }

    /// Returns the whole seconds of the span.
    #[must_use]
    pub fn as_secs(&self) -> (secs: u64)
        ensures
            secs == self.seconds(),
            secs as nat * 1_000_000_000 <= self@ < (secs + 1) * 1_000_000_000,
    {
        proof {
            use_type_invariant(self);
        }
        self.secs
    }

    /// Returns `true` if this is no time at all.
    #[must_use]
    pub fn is_zero(&self) -> (zero: bool)
        ensures
            zero == (self@ == 0),
    {
        self.secs == 0 && self.subsec_nanos == 0
    }
}

/// Keyspace-scope retention policy for secure versioned cells.
#[derive(Clone, Copy, Debug, Eq, PartialEq)]
pub struct RetentionPolicy {
    /// Maximum versions to retain per physical
    /// `(row, family, qualifier, visibility)` group.
    pub max_versions: Option<usize>,

    /// Maximum age to retain, comparing cell timestamps as Unix seconds.
    pub ttl: Option<Ttl>,
}

impl Default for RetentionPolicy {
    fn default() -> (policy: Self)
        ensures
            policy == (RetentionPolicy { max_versions: None, ttl: None }),
    {
        RetentionPolicy { max_versions: None, ttl: None }
    }
}

impl RetentionPolicy {
    /// What validation of this policy answers.
    pub open spec fn validation(self) -> Result<(), Error> {
        if self.max_versions == Some(0usize) {
            Err(Error::InvalidPolicy("max_versions must be greater than zero"))
        } else if self.ttl matches Some(ttl) && ttl@ == 0 {
            Err(Error::InvalidPolicy("ttl must be greater than zero"))
        } else {
            Ok(())
        }
    }

    /// Validates this retention policy.
    ///
    /// # Errors
    ///
    /// Returns an error if the policy is malformed.
    pub fn validate(&self) -> (validation: Result<(), Error>)
        ensures
            validation == self.validation(),
    {
        if let Some(max) = self.max_versions {
            if max == 0 {
                return Err(Error::InvalidPolicy("max_versions must be greater than zero"));
            }
        }
        if let Some(ttl) = self.ttl {
            if ttl.is_zero() {
                return Err(Error::InvalidPolicy("ttl must be greater than zero"));
            }
        }
        Ok(())
    }

    /// Whether a version is too old at time `now`.
    pub open spec fn expires(self, now: i64, timestamp: i64) -> bool {
        self.ttl matches Some(ttl) && ttl.seconds() <= i64::MAX && timestamp <= if now
            - ttl.seconds() < i64::MIN {
            i64::MIN as int
        } else {
            now - ttl.seconds()
        }
    }

    /// Why a version is to be deleted at time `now`, if it is: it is the
    /// `seen`th version of its group, counted from the newest, and `seen` is
    /// more than are retained, or else it is too old.
    pub open spec fn delete_reason(self, now: i64, seen: nat, timestamp: i64) -> Option<
        CompactionDeleteReason,
    > {
        if self.max_versions matches Some(max) && seen > max {
            Some(CompactionDeleteReason::MaxVersions)
        } else if self.expires(now, timestamp) {
            Some(CompactionDeleteReason::Ttl)
        } else {
            None
        }
    }

    /// Returns whether a version is too old at time `now_unix_seconds`.
    pub fn is_expired(&self, now_unix_seconds: i64, timestamp: i64) -> (expired: bool)
        ensures
            expired == self.expires(now_unix_seconds, timestamp),
            self.ttl is None ==> !expired,
            self.ttl matches Some(ttl) ==> ({
                let seconds = ttl@ / 1_000_000_000;
                expired <==> seconds <= 0x7fff_ffff_ffff_ffff && (timestamp <= now_unix_seconds
                    - seconds || timestamp == -0x8000_0000_0000_0000)
            }),
    {
        let ttl_seconds: u64 = match self.ttl {
            Some(ttl) => ttl.as_secs(),
            None => return false,
        };
        if ttl_seconds > i64::MAX as u64 {
            return false;
        }
        let exact: i128 = now_unix_seconds as i128 - ttl_seconds as i128;
        let oldest: i128 = if exact < i64::MIN as i128 {
            i64::MIN as i128
        } else {
            exact
        };
        timestamp as i128 <= oldest
    }

    /// Decides whether and why a version is to be deleted.
    pub fn judge_version(&self, now_unix_seconds: i64, versions_seen: usize, timestamp: i64) -> (
    reason: Option<CompactionDeleteReason>)
        ensures
            reason == self.delete_reason(now_unix_seconds, versions_seen as nat, timestamp),
    {
        if let Some(max) = self.max_versions {
            if versions_seen > max {
                return Some(CompactionDeleteReason::MaxVersions);
            }
        }
        if self.is_expired(now_unix_seconds, timestamp) {
            return Some(CompactionDeleteReason::Ttl);
        }
        None
    }
}

/// Reason a secure compaction policy deleted a value.
#[derive(Clone, Copy, Debug, Eq, PartialEq)]
pub enum CompactionDeleteReason {
    /// Version exceeded [`RetentionPolicy::max_versions`].
    MaxVersions,

    /// Version exceeded [`RetentionPolicy::ttl`].
    Ttl,
}

/// What compaction does with an entry.
#[derive(Clone, Copy, Debug, Eq, PartialEq)]
pub enum Verdict {
    /// Keep the entry.
    Keep,

    /// Remove the entry.
    Remove,
}

/// Converts a clock reading to the timestamps that cells carry.
pub fn unix_seconds(seconds_since_epoch: u64) -> (seconds: i64)
    ensures
        seconds == if seconds_since_epoch > i64::MAX {
            i64::MAX as int
        } else {
            seconds_since_epoch as int
        },
{
    if seconds_since_epoch > i64::MAX as u64 {
        i64::MAX
    } else {
        seconds_since_epoch as i64
    }
}

/// The retention of one secure keyspace, with what compaction needs to audit
/// deletions.
pub struct SecureCompactionPolicy<I, S> {
    logical_keyspace: String,
    retention: RetentionPolicy,
    audit: Option<AuditConfig<S>>,
    identity: PhantomData<I>,
}

impl<I, S> Clone for SecureCompactionPolicy<I, S> {
    fn clone(&self) -> (copy: Self)
        ensures
            copy.keyspace() == self.keyspace(),
            copy.retention() == self.retention(),
            copy.audit() == self.audit(),
    {
        SecureCompactionPolicy {
            logical_keyspace: self.logical_keyspace.clone(),
            retention: self.retention,
            audit: match &self.audit {
                Some(audit) => Some(audit.clone()),
                None => None,
            },
            identity: PhantomData,
        }
    }
}

impl<I, S> SecureCompactionPolicy<I, S> {
    /// The logical name of the keyspace.
    pub closed spec fn keyspace(self) -> Seq<char> {
        self.logical_keyspace@
    }

    /// The retention policy of the keyspace.
    pub closed spec fn retention(self) -> RetentionPolicy {
        self.retention
    }

    /// Where deletions are audited.
    pub closed spec fn audit(self) -> Option<AuditConfig<S>> {
        self.audit
    }

    /// Creates the retention of a keyspace.
    ///
    /// # Errors
    ///
    /// Returns an error if the retention policy is malformed.
    pub fn new(
        logical_keyspace: &str,
        retention: RetentionPolicy,
        audit: Option<AuditConfig<S>>,
    ) -> (policy: Result<Self, Error>)
        ensures
            match policy {
                Ok(policy) => {
                    &&& retention.validation() is Ok
                    &&& policy.keyspace() == logical_keyspace@
                    &&& policy.retention() == retention
                    &&& policy.audit() == audit
                },
                Err(error) => retention.validation() == Err::<(), Error>(error),
            },
    {
        match retention.validate() {
            Ok(()) => Ok(
                SecureCompactionPolicy {
                    logical_keyspace: logical_keyspace.to_owned(),
                    retention,
                    audit,
                    identity: PhantomData,
                },
            ),
            Err(error) => Err(error),
        }
    }
}

/// How far into a version group a compaction is.
pub struct GroupState {
    /// The fields of the current group.
    pub group: Option<Seq<Seq<u8>>>,
    /// The number of its versions that were seen.
    pub seen: nat,
}

/// Where a compaction is after one more version.
pub open spec fn next_state(state: GroupState, key: KeyView) -> GroupState {
    GroupState {
        group: Some(key.fields()),
        seen: if state.group == Some(key.fields()) {
            state.seen + 1
        } else {
            1
        },
    }
}

/// The fields that a group of versions has in common.
struct VersionGroup {
    row: Slice,
    family: Slice,
    qualifier: Slice,
    visibility: Slice,
}

impl VersionGroup {
    spec fn fields(self) -> Seq<Seq<u8>> {
        seq![self.row@, self.family@, self.qualifier@, self.visibility@]
    }

    fn of(key: &CompositeKey) -> (group: Self)
        ensures
            group.fields() == key@.fields(),
    {
        VersionGroup {
            row: key.row.clone(),
            family: key.family.clone(),
            qualifier: key.qualifier.clone(),
            visibility: key.visibility.clone(),
        }
    }

    fn holds(&self, key: &CompositeKey) -> (same: bool)
        ensures
            same == (self.fields() == key@.fields()),
    {
        let same = bytes_equal(self.row.as_slice(), key.row.as_slice()) && bytes_equal(
            self.family.as_slice(),
            key.family.as_slice(),
        ) && bytes_equal(self.qualifier.as_slice(), key.qualifier.as_slice()) && bytes_equal(
            self.visibility.as_slice(),
            key.visibility.as_slice(),
        );
        proof {
            if self.fields() == key@.fields() {
                assert(self.fields()[0] == key@.fields()[0]);
                assert(self.fields()[1] == key@.fields()[1]);
                assert(self.fields()[2] == key@.fields()[2]);
                assert(self.fields()[3] == key@.fields()[3]);
            }
        }
        same
    }
}

/// Applies the retention of a keyspace during one compaction, which visits
/// entries in ascending key order.
pub struct SecureRetentionFilter<I, S> {
    policy: SecureCompactionPolicy<I, S>,
    current_group: Option<VersionGroup>,
    versions_seen: usize,
    now_unix_seconds: i64,
}

impl<I, S> SecureRetentionFilter<I, S> {
    /// The retention that is applied.
    pub closed spec fn policy(self) -> SecureCompactionPolicy<I, S> {
        self.policy
    }

    /// The time of the compaction.
    pub closed spec fn now(self) -> i64 {
        self.now_unix_seconds
    }

    /// How far into a version group the compaction is.
    pub closed spec fn state(self) -> GroupState {
        GroupState {
            group: match self.current_group {
                Some(group) => Some(group.fields()),
                None => None,
            },
            seen: self.versions_seen as nat,
        }
    }

    /// Creates the filter of one compaction.
    pub fn new(policy: SecureCompactionPolicy<I, S>, now_unix_seconds: i64) -> (filter: Self)
        ensures
            filter.policy() == policy,
            filter.now() == now_unix_seconds,
            filter.state() == (GroupState { group: None, seen: 0 }),
    {
        SecureRetentionFilter { policy, current_group: None, versions_seen: 0, now_unix_seconds }
    }

    /// Returns whether the filter can count one more version.
    pub fn has_room(&self) -> (room: bool)
        ensures
            room == (self.state().seen < usize::MAX),
    {
        self.versions_seen < usize::MAX
    }
}

impl<I, S> SecureRetentionFilter<I, S> where I: Clone + Send + Sync + 'static, S: AuditSink<I> {
    /// Decides what compaction does with the next entry.
    ///
    /// # Errors
    ///
    /// Returns an error if the key cannot be decoded, or a deletion cannot be
    /// audited.
    pub fn filter_item(&mut self, key: &[u8]) -> (verdict: Result<Verdict, Error>)
        requires
            old(self).state().seen < usize::MAX,
        ensures
            final(self).policy() == old(self).policy(),
            final(self).now() == old(self).now(),
            match decoded_key(key@) {
                Err(error) => {
                    &&& verdict == Err::<Verdict, Error>(error)
                    &&& final(self).state() == old(self).state()
                },
                Ok(version) => {
                    let state = next_state(old(self).state(), version);
                    &&& final(self).state() == state
                    &&& match old(self).policy().retention().delete_reason(
                        old(self).now(),
                        state.seen,
                        version.timestamp,
                    ) {
                        None => verdict == Ok::<Verdict, Error>(Verdict::Keep),
                        Some(reason) => exists|audited: Result<(), Error>|
                            {
                                &&& #[trigger] records::<I, S>(
                                    old(self).policy().audit(),
                                    EventView::CompactionDeleted {
                                        keyspace: old(self).policy().keyspace(),
                                        reason,
                                    },
                                    audited,
                                )
                                &&& verdict == removal(audited)
                            },
                    }
                },
            },
    {
        let key = match CompositeKey::decode(key) {
            Ok(key) => key,
            Err(error) => return Err(error),
        };
        let same_group = match &self.current_group {
            Some(group) => group.holds(&key),
            None => false,
        };
        if !same_group {
            self.current_group = Some(VersionGroup::of(&key));
            self.versions_seen = 0;
        }
        self.versions_seen = self.versions_seen + 1;
        match self.policy.retention.judge_version(
            self.now_unix_seconds,
            self.versions_seen,
            key.timestamp,
        ) {
            Some(reason) => {
                let audited = self.audit_delete(reason);
                assert(records::<I, S>(
                    self.policy().audit(),
                    EventView::CompactionDeleted { keyspace: self.policy().keyspace(), reason },
                    audited,
                ));
                judge_removal(audited)
            },
            None => Ok(Verdict::Keep),
        }
    }

    fn audit_delete(&self, reason: CompactionDeleteReason) -> (audited: Result<(), Error>)
        ensures
            records::<I, S>(
                self.policy().audit(),
                EventView::CompactionDeleted { keyspace: self.policy().keyspace(), reason },
                audited,
            ),
    {
        record_audit(
            &self.policy.audit,
            AuditEvent::CompactionDeleted {
                keyspace: self.policy.logical_keyspace.as_str(),
                reason,
            },
        )
    }
}

/// What becomes of a version that is to be deleted: it is removed only if the
/// removal was audited.
pub open spec fn removal(audited: Result<(), Error>) -> Result<Verdict, Error> {
    match audited {
        Ok(()) => Ok(Verdict::Remove),
        Err(error) => Err(error),
    }
}

/// Decides what becomes of a version that is to be deleted.
///
/// # Errors
///
/// Returns the error of the audit.
pub fn judge_removal(audited: Result<(), Error>) -> (verdict: Result<Verdict, Error>)
    ensures
        verdict == removal(audited),
{
    match audited {
        Ok(()) => Ok(Verdict::Remove),
        Err(error) => Err(error),
    }
}

} // verus!
