//! Topic enrollment for a layered package repository: the topic manifest and
//! its architecture filter, reconciliation of enrolled topics with fresh
//! manifests, mirror choice, package-id parsing, the transaction signal
//! protocol of the package daemon, plan classification, the integrity check
//! of the privileged hand-off, and the dpkg status scanner.
mod text;
pub mod manifest;
pub mod reconcile;
pub mod pk;
pub mod plan;
pub mod builder;
pub mod transaction;
pub mod dpkg;
pub mod handoff;
pub mod mirror;
pub mod progress;
