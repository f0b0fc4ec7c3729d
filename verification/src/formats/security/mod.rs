//! Security reports.

pub mod gitlab;
pub mod gitlab_laws;
pub mod gitlab_sast;
pub mod trivy;
pub mod trivy_laws;
