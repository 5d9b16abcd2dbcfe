//! Typed dynamic properties attached to objects after their type is fixed.
//!
//! A [`subject::Subject`] is the append-only layout registry of one category of objects,
//! a [`property::Property`] is a typed handle to one registered slot, and a
//! [`store::PropertyData`] is the per-object store that holds the values of the slots it
//! has seen.
pub mod bits;
pub mod subject;
pub mod store;
pub mod property;
pub mod object;
pub mod laws;
