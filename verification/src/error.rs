//! Errors of the secure storage layer.

use vstd::prelude::*;

verus! {

/// Why an operation of this crate was refused.
#[derive(Clone, Copy, Debug, Eq, PartialEq)]
pub enum Error {
    /// A composite key or prefix is malformed.
    InvalidCompositeKey(&'static str),

    /// A visibility expression or an authorization label is malformed.
    InvalidVisibilityExpression(&'static str),

    /// A value could not be encrypted or decrypted.
    Crypto(&'static str),

    /// A retention policy is malformed.
    InvalidPolicy(&'static str),

    /// An audit event could not be recorded.
    Audit(&'static str),

    /// A security provider could not answer.
    ProviderFailure(&'static str),

    /// The credentials were not accepted.
    AuthenticationDenied,

    /// The identity lacks the named permission.
    PermissionDenied(&'static str),

    /// A required provider was not configured.
    MissingSecurityProvider(&'static str),

    /// The keyspace name is reserved for secure keyspaces.
    ReservedKeyspaceName,
}

} // verus!
