//! Validation and representation of a single DNS hostname label.
//!
//! A label is the unit between dots in a domain name. This crate scans byte
//! buffers for labels, hands out borrowed views over validated bytes, and
//! offers a fixed-capacity owned copy that needs no allocation.
pub mod grammar;
pub mod label;
pub mod lemmas;
pub mod owned;
