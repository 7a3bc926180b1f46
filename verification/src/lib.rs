//! A transactional ownership registry for uniquely identified digital tokens
//! ("kitties"). The registry mints tokens with generated identities and
//! derived attributes, tracks which account owns which token through two
//! coupled indices (token-by-identity and tokens-by-owner), and moves tokens
//! between accounts under strict consistency rules: identities stay unique,
//! the two indices always agree, per-account holdings stay bounded, and the
//! supply counter matches the number of live tokens.

pub mod dna;
pub mod errors;
pub mod events;
pub mod genesis;
pub mod kitty;
pub mod pallet;
