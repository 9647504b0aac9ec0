//! CSS data model.
//!
//! The stylesheet grammar itself is an external collaborator: parsing
//! raw stylesheet bytes into these types is done outside this library.
//! What lives here is the data model and the specificity arithmetic.

pub mod stylesheet;
pub mod types;
