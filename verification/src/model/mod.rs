//! The pivot models that every reader fills and every writer renders.

pub mod coverage;
pub mod coverage_laws;
pub mod findings;
pub mod findings_laws;
pub mod sbom;
pub mod sbom_laws;
pub mod tests;
pub mod tests_laws;
