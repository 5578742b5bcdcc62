//! Organisation mesh, user directory and text catalogue behind the firm service.
pub mod decimal;
pub mod chars;
pub mod firm;
pub mod codes;
pub mod df;
pub mod sorting;
pub mod ad;
pub mod tx;
pub mod oldap;
pub mod server;
pub mod client;
