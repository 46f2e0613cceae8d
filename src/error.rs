use vstd::prelude::*;

verus! {

/// Why a registry operation was refused.
#[derive(Debug, Clone, Copy, PartialEq, Eq, Structural)]
pub enum RegistryError {
    /// No record has the id, or an index list lacks the id.
    NotFound,
    /// The caller does not own the record.
    Unauthorized,
    /// A transfer of the record is already pending.
    AlreadyPending,
    /// No transfer of the record is pending.
    NotPending,
    /// A transfer is pending, to someone other than the caller.
    NotRecipient,
    /// An index list already holds the id.
    DuplicateEntry,
    /// The record cannot be deleted while a transfer is pending.
    Conflict,
}

} // verus!
