use vstd::prelude::*;

verus! {

/// The faults an operation can report. All of them are local and recoverable
/// by the caller; none leaves the registry in an inconsistent state, because
/// every precondition is checked before any write.
#[derive(Clone, Copy, Debug, PartialEq, Eq, Structural)]
pub enum Error {
    /// An account may only own `max_kitties_owned` kitties.
    TooManyOwned,
    /// Trying to transfer a kitty to oneself.
    TransferToSelf,
    /// A kitty with this DNA already exists.
    DuplicateKitty,
    /// No kitty with this DNA exists.
    NoKitty,
    /// The caller is not the owner of this kitty.
    NotOwner,
    /// The supply counter would exceed its representable range.
    Overflow,
}

} // verus!
