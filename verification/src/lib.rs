//! Recent-agent query service.
//!
//! The library selects the agent-session records that started within a
//! trailing time window, orders them by start time (newest first), caps the
//! result at a fixed number of records, and renders them as a JSON array.
//! Reading the records out of the SQLite file, and resolving where that file
//! lives, is left to the surrounding application; the library works on the
//! plain row values and is verified.

pub mod agent;
pub mod order;
pub mod select;
pub mod json;
pub mod service;
