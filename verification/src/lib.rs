//! Core of a serverless worker node: slot pool, code cache, sandbox
//! lifecycle, signed response envelope and billing ledger.
//!
//! Every decision the node takes is a function of this crate. The program
//! around it performs the file, process and network work that the functions
//! ask for and hands the outcome back as plain values.

pub mod billing_handler;
pub mod billing_job;
pub mod bytes;
pub mod cgroups;
pub mod encoding;
pub mod error;
pub mod file_manager;
pub mod handler;
pub mod model;
pub mod signing;
pub mod workerd;
