//! Verified core of the 1C:Enterprise metadata and code index: business terms
//! of procedures, queries and references in XML dumps, and the rows that the
//! index stores.

pub mod index_extras;
pub mod json;
pub mod terms;
pub mod text;
pub mod unicode;
pub mod xml;
