//! Pivot models, readers and writers for CI/CD report formats.

pub mod convert;
pub mod convert_laws;
pub mod detect;
pub mod detect_laws;
pub mod echo;
pub mod error;
pub mod formats;
pub mod hash;
pub mod json;
pub mod json_echo;
pub mod listing;
pub mod listing_laws;
pub mod model;
pub mod order;
pub mod paths;
pub mod paths_laws;
pub mod registry;
pub mod text;
pub mod text_laws;
pub mod value;
pub mod warn;
pub mod xml;
