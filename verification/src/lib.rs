//! The Steward's Charter as a verified library: an append-only, hash-chained
//! memory of scars, recorded refusals, fresh-eyes review of consequential
//! actions, a trust-modulated human tether, and the reach boundary.

pub mod canonical;
pub mod digest;
pub mod scar;
pub mod refusal;
pub mod tether;
pub mod novice;
pub mod reach;
