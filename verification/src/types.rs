//! Shared value types of the storage layer: the per-call context, the write
//! policies, the tri-state presence answer, and the low-level error taxonomy.

use vstd::prelude::*;

verus! {

/// Per-call context handed to every storage operation.
///
/// Carries the caller's logical clock in microseconds. Rate limiting and
/// lease expiry are judged against this clock; the driver that owns the
/// stack supplies it.
#[derive(Clone, Copy, Debug)]
pub struct CoreContext {
    pub now_us: u64,
}

impl CoreContext {
    pub fn new(now_us: u64) -> (r: CoreContext)
        ensures
            r.now_us == now_us,
    {
        CoreContext { now_us }
    }
}

/// Governs whether a `put` to an existing key replaces it and whether a
/// replacement is audit-logged. Applies uniformly across backends.
#[derive(Clone, Copy, Debug, PartialEq, Eq, Structural)]
pub enum PutBehaviour {
    Overwrite,
    OverwriteAndLog,
    IfAbsent,
    IfAbsentAndLog,
}

impl PutBehaviour {
    /// Whether this policy lets a put replace a key that already holds
    /// different content.
    pub open spec fn spec_overwrites(self) -> bool {
        self is Overwrite || self is OverwriteAndLog
    }

    #[verifier::when_used_as_spec(spec_overwrites)]
    pub fn overwrites(self) -> (r: bool)
        ensures
            r == self.spec_overwrites(),
    {
        match self {
            PutBehaviour::Overwrite => true,
            PutBehaviour::OverwriteAndLog => true,
            PutBehaviour::IfAbsent => false,
            PutBehaviour::IfAbsentAndLog => false,
        }
    }

    /// Whether a replacement under this policy is audit-logged by the driver.
    pub open spec fn spec_logs_overwrite(self) -> bool {
        self is OverwriteAndLog || self is IfAbsentAndLog
    }

    #[verifier::when_used_as_spec(spec_logs_overwrite)]
    pub fn logs_overwrite(self) -> (r: bool)
        ensures
            r == self.spec_logs_overwrite(),
    {
        match self {
            PutBehaviour::OverwriteAndLog => true,
            PutBehaviour::IfAbsentAndLog => true,
            PutBehaviour::Overwrite => false,
            PutBehaviour::IfAbsent => false,
        }
    }
}

/// What a successful `put` did to the key.
#[derive(Clone, Copy, Debug, PartialEq, Eq, Structural)]
pub enum PutStatus {
    /// The key was absent and now holds the value.
    Inserted,
    /// The key existed and was replaced under an `Overwrite*` policy.
    Overwrote,
    /// The key already held this exact value; nothing had to change.
    Deduped,
}

/// Tri-state existence answer, used to let caches answer cheaply without a
/// full fetch. `MaybePresent` signals "ask the backend".
#[derive(Clone, Copy, Debug, PartialEq, Eq, Structural)]
pub enum Presence {
    Present,
    Absent,
    MaybePresent,
}

/// Failures of the uniform storage interface.
#[derive(Clone, Copy, Debug, PartialEq, Eq, Structural)]
pub enum StorageError {
    /// A transport or storage-level failure; potentially retryable.
    IoFailure,
    /// A conflicting write under an `IfAbsent*` policy: the key exists and
    /// its content differs.
    AlreadyPresent,
    /// Write-lease coordination failed to resolve in time.
    LeaseTimeout,
}

impl StorageError {
    /// A short diagnostic label for the error.
    pub fn describe(&self) -> (r: &'static str)
        ensures
            self is IoFailure ==> r@ == "transport or storage failure"@,
            self is AlreadyPresent ==> r@ == "key already holds different content"@,
            self is LeaseTimeout ==> r@ == "write lease did not resolve in time"@,
    {
        match self {
            StorageError::IoFailure => "transport or storage failure",
            StorageError::AlreadyPresent => "key already holds different content",
            StorageError::LeaseTimeout => "write lease did not resolve in time",
        }
    }
}

} // verus!
