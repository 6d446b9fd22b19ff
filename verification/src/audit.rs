//! Audit hooks for secure APIs.

use std::sync::Arc;

use vstd::prelude::*;

use crate::error::Error;
use crate::policy::CompactionDeleteReason;

verus! {

/// Controls how audit sink failures affect audited operations.
#[derive(Clone, Copy, Debug, Eq, PartialEq)]
pub enum AuditFailureMode {
    /// Ignore audit errors and allow the operation to continue.
    BestEffort,

    /// Reject the audited operation if audit recording fails.
    FailClosed,
}

/// Secure audit event.
#[derive(Clone, Copy, Debug)]
pub enum AuditEvent<'a, I> {
    /// Authentication succeeded.
    AuthenticationSucceeded {
        /// Authenticated identity.
        identity: &'a I,
    },

    /// Authentication failed.
    AuthenticationFailed,

    /// Authorization was denied for a keyspace operation.
    AuthorizationDenied {
        /// Authenticated identity.
        identity: &'a I,

        /// Logical secure keyspace name.
        keyspace: &'a str,
    },

    /// A configured security policy was violated.
    PolicyViolation {
        /// Logical secure keyspace name.
        keyspace: &'a str,
    },

    /// Compaction deleted a version due to policy.
    CompactionDeleted {
        /// Logical secure keyspace name.
        keyspace: &'a str,

        /// Deletion reason.
        reason: CompactionDeleteReason,
    },

    /// A keyspace operation passed authorization.
    KeyspaceAccess {
        /// Authenticated identity.
        identity: &'a I,

        /// Logical secure keyspace name.
        keyspace: &'a str,
    },
}

/// An audit event as mathematical values.
pub enum EventView<I> {
    /// Authentication succeeded.
    AuthenticationSucceeded {
        /// Authenticated identity.
        identity: I,
    },
    /// Authentication failed.
    AuthenticationFailed,
    /// Authorization was denied for a keyspace operation.
    AuthorizationDenied {
        /// Authenticated identity.
        identity: I,
        /// Logical secure keyspace name.
        keyspace: Seq<char>,
    },
    /// A configured security policy was violated.
    PolicyViolation {
        /// Logical secure keyspace name.
        keyspace: Seq<char>,
    },
    /// Compaction deleted a version due to policy.
    CompactionDeleted {
        /// Logical secure keyspace name.
        keyspace: Seq<char>,
        /// Deletion reason.
        reason: CompactionDeleteReason,
    },
    /// A keyspace operation passed authorization.
    KeyspaceAccess {
        /// Authenticated identity.
        identity: I,
        /// Logical secure keyspace name.
        keyspace: Seq<char>,
    },
}

impl<'a, I> View for AuditEvent<'a, I> {
    type V = EventView<I>;

    open spec fn view(&self) -> EventView<I> {
        match self {
            AuditEvent::AuthenticationSucceeded { identity } => {
                EventView::AuthenticationSucceeded { identity: **identity }
            },
            AuditEvent::AuthenticationFailed => EventView::AuthenticationFailed,
            AuditEvent::AuthorizationDenied { identity, keyspace } => {
                EventView::AuthorizationDenied { identity: **identity, keyspace: keyspace@ }
            },
            AuditEvent::PolicyViolation { keyspace } => {
                EventView::PolicyViolation { keyspace: keyspace@ }
            },
            AuditEvent::CompactionDeleted { keyspace, reason } => {
                EventView::CompactionDeleted { keyspace: keyspace@, reason: *reason }
            },
            AuditEvent::KeyspaceAccess { identity, keyspace } => {
                EventView::KeyspaceAccess { identity: **identity, keyspace: keyspace@ }
            },
        }
    }
}

/// Audit sink for secure API events.
pub trait AuditSink<I>: Send + Sync + 'static where I: Clone + Send + Sync + 'static {
    /// Records one audit event.
    ///
    /// # Errors
    ///
    /// Returns an error when the sink cannot record the event.
    fn record(&self, event: AuditEvent<'_, I>) -> Result<(), Error>;
}

/// Stands for the audit sink where none is installed.
#[derive(Clone, Copy, Debug)]
pub struct NoAuditSink;

impl<I> AuditSink<I> for NoAuditSink where I: Clone + Send + Sync + 'static {
    fn record(&self, event: AuditEvent<'_, I>) -> (recorded: Result<(), Error>)
        ensures
            recorded == Ok::<(), Error>(()),
    {
        Ok(())
    }
}

/// An audit sink and what its failures mean.
pub struct AuditConfig<S> {
    sink: Arc<S>,
    failure_mode: AuditFailureMode,
}

impl<S> Clone for AuditConfig<S> {
    fn clone(&self) -> (copy: Self)
        ensures
            copy == *self,
    {
        AuditConfig { sink: self.sink.clone(), failure_mode: self.failure_mode }
    }
}

/// What an audited operation learns of what the sink answered: a failure of
/// the sink counts in fail-closed mode only.
pub open spec fn audit_outcome(mode: AuditFailureMode, recorded: Result<(), Error>) -> Result<
    (),
    Error,
> {
    if recorded is Err && mode is FailClosed {
        Err(Error::Audit("audit sink failed"))
    } else {
        Ok(())
    }
}

/// Decides what an audited operation learns of what the sink answered.
///
/// # Errors
///
/// Returns an error if the sink failed and failures are not to be ignored.
pub fn judge_recording(mode: AuditFailureMode, recorded: Result<(), Error>) -> (outcome: Result<
    (),
    Error,
>)
    ensures
        outcome == audit_outcome(mode, recorded),
{
    match recorded {
        Ok(()) => Ok(()),
        Err(_) => match mode {
            AuditFailureMode::BestEffort => Ok(()),
            AuditFailureMode::FailClosed => Err(Error::Audit("audit sink failed")),
        },
    }
}

impl<S> AuditConfig<S> {
    /// The installed sink.
    pub closed spec fn sink(self) -> S {
        *self.sink
    }

    /// What failures of the sink mean.
    pub closed spec fn failure_mode(self) -> AuditFailureMode {
        self.failure_mode
    }

    /// Creates the configuration of an audit sink.
    pub fn new(sink: S, failure_mode: AuditFailureMode) -> (config: Self)
        ensures
            config.sink() == sink,
            config.failure_mode() == failure_mode,
    {
        AuditConfig { sink: Arc::new(sink), failure_mode }
    }

    /// Records one audit event.
    ///
    /// # Errors
    ///
    /// Returns an error if the sink failed and failures are not to be ignored.
    pub fn record<I>(&self, event: AuditEvent<'_, I>) -> (outcome: Result<(), Error>) where
        I: Clone + Send + Sync + 'static,
        S: AuditSink<I>,

        ensures
            records(Some(*self), event@, outcome),
    {
        let recorded = self.sink.record(event);
        assert(call_ensures(S::record, (&self.sink(), event), recorded));
        judge_recording(self.failure_mode, recorded)
    }
}

/// Whether auditing `event` can come out as `outcome`: the installed sink, if
/// any, was given this event, and `outcome` is its answer judged by its mode.
/// How often the sink is called is not said.
pub open spec fn records<I, S>(
    audit: Option<AuditConfig<S>>,
    event: EventView<I>,
    outcome: Result<(), Error>,
) -> bool where I: Clone + Send + Sync + 'static, S: AuditSink<I> {
    match audit {
        Some(config) => exists|given: AuditEvent<'_, I>, recorded: Result<(), Error>|
            {
                &&& #[trigger] call_ensures(S::record, (&config.sink(), given), recorded)
                &&& given@ == event
                &&& outcome == audit_outcome(config.failure_mode(), recorded)
            },
        None => outcome == Ok::<(), Error>(()),
    }
}

/// Records one audit event if a sink is installed.
///
/// # Errors
///
/// Returns an error if the sink failed and failures are not to be ignored.
pub fn record_audit<I, S>(audit: &Option<AuditConfig<S>>, event: AuditEvent<'_, I>) -> (outcome:
    Result<(), Error>) where I: Clone + Send + Sync + 'static, S: AuditSink<I>
    ensures
        records(*audit, event@, outcome),
{
    match audit {
        Some(config) => config.record(event),
        None => Ok(()),
    }
}

/// An audited operation is refused on account of auditing only with the audit
/// error, and only where a sink in fail-closed mode is installed.
pub proof fn lemma_only_fail_closed_refuses<I, S>(
    audit: Option<AuditConfig<S>>,
    event: EventView<I>,
    outcome: Result<(), Error>,
) where I: Clone + Send + Sync + 'static, S: AuditSink<I>
    requires
        records(audit, event, outcome),
        outcome is Err,
    ensures
        outcome == Err::<(), Error>(Error::Audit("audit sink failed")),
        audit matches Some(config) && config.failure_mode() is FailClosed,
{
}

/// The sink is given the event itself, and what the operation learns of its
/// answer depends on the mode alone: a failure is passed over in best-effort
/// mode and refuses the operation in fail-closed mode. Without a sink nothing
/// is refused.
pub proof fn lemma_sinks_are_given_the_event<I, S>(
    audit: Option<AuditConfig<S>>,
    event: EventView<I>,
    outcome: Result<(), Error>,
) where I: Clone + Send + Sync + 'static, S: AuditSink<I>
    requires
        records(audit, event, outcome),
    ensures
        match audit {
            None => outcome is Ok,
            Some(config) => exists|given: AuditEvent<'_, I>, recorded: Result<(), Error>|
                {
                    &&& #[trigger] call_ensures(S::record, (&config.sink(), given), recorded)
                    &&& tells_of(given, event)
                    &&& recorded is Ok ==> outcome is Ok
                    &&& recorded is Err && config.failure_mode() is BestEffort ==> outcome is Ok
                    &&& recorded is Err && config.failure_mode() is FailClosed ==> outcome == Err::<
                        (),
                        Error,
                    >(Error::Audit("audit sink failed"))
                },
        },
{
    if let Some(config) = audit {
        let (given, recorded) = choose|given: AuditEvent<'_, I>, recorded: Result<(), Error>|
            {
                &&& #[trigger] call_ensures(S::record, (&config.sink(), given), recorded)
                &&& given@ == event
                &&& outcome == audit_outcome(config.failure_mode(), recorded)
            };
        assert(call_ensures(S::record, (&config.sink(), given), recorded));
    }
}

/// Whether an audit event is of the given kind and names the given identity,
/// keyspace and reason.
pub open spec fn tells_of<I>(given: AuditEvent<'_, I>, event: EventView<I>) -> bool {
    match event {
        EventView::AuthenticationSucceeded { identity } => {
            given matches AuditEvent::AuthenticationSucceeded { identity: who } && *who == identity
        },
        EventView::AuthenticationFailed => given matches AuditEvent::AuthenticationFailed,
        EventView::AuthorizationDenied { identity, keyspace } => {
            given matches AuditEvent::AuthorizationDenied { identity: who, keyspace: name } && *who
                == identity && name@ == keyspace
        },
        EventView::PolicyViolation { keyspace } => {
            given matches AuditEvent::PolicyViolation { keyspace: name } && name@ == keyspace
        },
        EventView::CompactionDeleted { keyspace, reason } => {
            given matches AuditEvent::CompactionDeleted { keyspace: name, reason: why } && name@
                == keyspace && why == reason
        },
        EventView::KeyspaceAccess { identity, keyspace } => {
            given matches AuditEvent::KeyspaceAccess { identity: who, keyspace: name } && *who
                == identity && name@ == keyspace
        },
    }
}

} // verus!
