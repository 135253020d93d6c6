//! Core logic of the BorrowChecker ledger: account-path parsing and
//! resolution, commodity resolution, the decisions an import run makes,
//! metadata coercion, loan amortization, and what the interface is shown.

pub mod account_path;
pub mod audit;
pub mod batch;
pub mod budget_view;
pub mod coerce;
pub mod commodity;
pub mod decimal;
pub mod discard;
pub mod engine;
pub mod error;
pub mod import;
pub mod import_exec;
pub mod ipc;
pub mod loan;
pub mod metadata;
pub mod model;
pub mod plan;
pub mod plan_totals;
pub mod profile;
pub mod residual;
pub mod resolve;
pub mod storage;
pub mod tags;
pub mod text;
pub mod usage;
pub mod write;
