//! Verified core of an auditor for generated source snippets: the lexical
//! pre-check, the compile-check bookkeeping, audit record shaping and the
//! statistics over stored records.

pub mod text;
pub mod validator;
pub mod models;
pub mod error;
pub mod auditor;
pub mod stats;
pub mod services;
