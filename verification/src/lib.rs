//! A sharded ledger of fungible value: exact-width unsigned integers, values
//! proved non-zero, a map split into capacity-bounded shards, on top of them
//! the balances and the allowances of a token, and the token itself: the two
//! ledgers behind one pause switch.
pub mod actor;
pub mod allowances;
pub mod amount;
pub mod balances;
pub mod conversions;
pub mod le_bytes;
pub mod map;
pub mod math;
pub mod non_zero;
pub mod sum;
pub mod token;
