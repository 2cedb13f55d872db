//! Laws: what holds of the operations of the library over all inputs, beyond what
//! each of them states of itself.

pub mod classification;
pub mod commands;
pub mod discovery;
pub mod enrichment;
pub mod history;
pub mod languages;
pub mod log;
pub mod measuring;
pub mod naming;
pub mod numbers;
pub mod publishing;
pub mod records;
pub mod requests;
pub mod scoring;
pub mod sources;
pub mod texts;
