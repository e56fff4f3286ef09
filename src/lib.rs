//! A registry of kitties: uniquely numbered assets with a 16-byte dna and a
//! price, their owners, and the reservations in a balance ledger that back
//! each kitty's price. Beside it, a registry of claims on byte strings.
pub mod balances;
pub mod dna;
pub mod pallet;
pub mod poe;
