//! Scraping job orchestration core for a multi-store price tracker.
//!
//! The crate models the durable price ledger (products, stores, prices,
//! trackings and the scraping job queue), the priority-ordered job state
//! machine, and the worker bridge protocol: building a worker request,
//! decoding the single structured record a worker emits on its standard
//! output, and classifying the outcome of a time-bounded worker run.
//!
//! All database and process I/O lives outside this crate; the functions
//! here are the decision and bookkeeping logic, each with a contract.

pub mod bridge;
pub mod ledger;
pub mod models;
pub mod protocol;
pub mod scheduler;
