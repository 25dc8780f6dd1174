//! Hardware identification library.
//!
//! Answers "what hardware is this?" queries: parsers for several flat-file
//! hardware databases (PCI ids, USB ids, bugcheck codes, CPU spec sheets),
//! exact-match device caches keyed by structured identifier strings, and a
//! heuristic resolver that maps free-form CPU names to catalog entries.
//!
//! Every cache is built once from its database text and is read-only
//! afterwards; lookups are pure and never panic, answering malformed
//! queries with typed errors.

pub mod amd;
pub mod api;
pub mod bugcheck;
pub mod cpu;
pub mod intel;
pub mod pcie;
pub mod text;
pub mod usb;
