//! The readers and writers, by what they report on.

pub mod coverage;
pub mod notices;
pub mod quality;
pub mod sbom;
pub mod security;
pub mod tests;
