//! Where files can be read from.

pub mod http;
