//! The display driver.

pub mod file;
