//! A community treasury that disburses fixed subsidy entitlements to
//! registered beneficiaries, one claim per beneficiary per cycle.

pub mod address;
pub mod types;
pub mod model;
pub mod contract;
pub mod laws;
pub mod sequences;
pub mod guarantees;

pub use address::Address;
pub use types::{Beneficiary, Config, ContractError, DisbursementRecord, Transfer};
pub use contract::DirectAyudaContract;
