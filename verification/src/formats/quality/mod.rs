//! Code quality reports.

pub mod checkstyle;
pub mod checkstyle_laws;
pub mod codeclimate;
pub mod codeclimate_laws;
pub mod codeclimate_trip;
pub mod eslint;
pub mod eslint_laws;
pub mod sarif;
pub mod sarif_laws;
pub mod sarif_trip;
