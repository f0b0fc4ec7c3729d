//! Test reports.

pub mod gotest;
pub mod gotest_laws;
pub mod junit;
pub mod junit_laws;
pub mod junit_trip;
pub mod tap;
pub mod tap_laws;
pub mod trx;
pub mod trx_laws;
