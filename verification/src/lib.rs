//! A minimal token-issuance ledger: one mint, a set of balance accounts,
//! and three mutating operations (create the mint, mint new supply into an
//! account, transfer between accounts), each verified to preserve the
//! conservation invariant and to fail atomically.

pub mod laws;
pub mod ledger;
