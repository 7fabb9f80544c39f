//! Version ordering, requirement matching, wheel file names and the
//! simple-repository listing model behind a filtering package-index gateway.

pub mod error;
pub mod filter;
pub mod specifier;
pub mod text;
pub mod grammar;
pub mod html;
pub mod index;
pub mod laws;
pub mod ordering;
pub mod version;
pub mod wheel;
