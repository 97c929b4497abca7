//! A toolkit for querying several named data suppliers as one.
//!
//! A [`supplier::Supplier`] answers requests under a name. A
//! [`supplier::SupplierRegistry`] keeps shared handles to suppliers by name,
//! and a [`supplier_group::BasicSupplierGroup`] sends one request to each of
//! its members and reports the successes and the failures side by side: one
//! member's failure never keeps the others from being asked.

pub mod errors;
pub mod models;
pub mod supplier;
pub mod supplier_group;
pub mod text;
pub mod utils;
