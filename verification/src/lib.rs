//! Verified core of a local-network reconnaissance tool: parsing the XML
//! report of an external scanner into flat, UI-ready records, and computing
//! network addresses for discovered interfaces.

pub mod command;
pub mod dec;
pub mod hosts;
pub mod ports;
pub mod report;
pub mod scan;
pub mod schema;
pub mod strutil;
pub mod subnet;
pub mod xml;
