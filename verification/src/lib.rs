//! A payment-streaming and payment-commitment ledger for a Stellar
//! micropayment contract, with its rules stated and proved in Verus.
pub mod bytes;
pub mod model;
pub mod contract;
pub mod laws;
pub mod entry_laws;
