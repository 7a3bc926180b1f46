use vstd::prelude::*;

verus! {

/// A caller or owner account. Callers are assumed to have been authenticated
/// by the dispatch layer above the registry, so an account is just an opaque
/// value with equality.
pub type AccountId = u64;

/// A token identity ("DNA"): an opaque byte sequence, globally unique within
/// a registry and immutable once minted.
pub type Dna = Vec<u8>;

/// A monetary amount; present on a token only while it is listed for sale.
pub type Balance = u64;

/// An opaque timestamp captured from an external clock at mint time.
pub type Moment = u64;

/// The immutable two-valued classification of a kitty, derived from its DNA.
#[derive(Clone, Copy, Debug, PartialEq, Eq, Structural)]
pub enum Gender {
    Male,
    Female,
}

impl Default for Gender {
    fn default() -> (r: Self)
        ensures
            r == Gender::Male,
    {
        Gender::Male
    }
}

/// The attribute policy: a DNA of odd length yields `Female`, one of even
/// length yields `Male`. The exact parity rule is kept for compatibility with
/// any stored data.
pub open spec fn gender_of(dna: Seq<u8>) -> Gender {
    if dna.len() % 2 != 0 {
        Gender::Female
    } else {
        Gender::Male
    }
}

/// One uniquely owned token.
#[derive(Debug)]
pub struct Kitty {
    /// The token's unique identity; the token store's key.
    pub dna: Dna,
    /// `None` means the kitty is not for sale. Always reset to `None` on
    /// transfer.
    pub price: Option<Balance>,
    /// Derived from the DNA at mint time; never changes afterwards.
    pub gender: Gender,
    /// The current owner; changes only via transfer.
    pub owner: AccountId,
    /// When the kitty was minted, as reported by the external clock.
    pub created_date: Moment,
}

} // verus!
