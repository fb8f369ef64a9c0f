//! Reading Open-Meteo (`.om`) files through a backend that hands out byte ranges.
//!
//! The library holds what such a reader decides and computes: the layout of the file and of its
//! metadata blocks, how a file is opened, which byte ranges are requested and what becomes of the
//! replies. Performing the requests is left to the caller.

pub mod array_read;
pub mod array_read_laws;
pub mod array_step_laws;
pub mod backends;
pub mod child_search;
pub mod child_search_laws;
pub mod children;
pub mod decimal;
pub mod errors;
pub mod file_format;
pub mod format_laws;
pub mod grouping_laws;
pub mod http_laws;
pub mod little_endian;
pub mod opening;
pub mod opening_laws;
pub mod reader_async;
pub mod reader_laws;
pub mod sharing;
pub mod variable;
pub mod variable_laws;
