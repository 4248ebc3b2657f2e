//! Verified core of a small set of NEAR contracts: a blog tipping contract,
//! a linkdrop contract and a greeting/sign-up contract.
//!
//! Every contract is modelled as a plain state machine: a call receives the
//! values that the NEAR runtime would provide (signer, deposit, promise
//! results, ...) in a [`context::CallContext`] and answers with the new state
//! and the promises that the runtime has to schedule.
pub mod account;
pub mod context;
pub mod decimal;
pub mod experiment;
pub mod greeting;
pub mod linkdrop;
pub mod payout;
pub mod strmap;
pub mod tipping;
