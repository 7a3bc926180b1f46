use vstd::prelude::*;
use crate::kitty::{AccountId, Dna};

verus! {

/// The observable effects of successful operations, in the order they were
/// emitted. An external event sink may read them; the registry itself never
/// depends on them.
#[derive(Debug)]
pub enum Event {
    /// A new kitty was successfully created.
    Created { kitty: Dna, owner: AccountId },
    /// A kitty was successfully transferred.
    Transferred { from: AccountId, to: AccountId, kitty: Dna },
}

} // verus!
