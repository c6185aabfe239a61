//! The intermediate tree mirroring the scanner's XML report schema, and the
//! flat record shapes handed to the caller.
//!
//! Absent optional text is carried as the empty string in the flat records,
//! never as a missing field: the consumer renders the fields directly.

use vstd::prelude::*;

verus! {

/// Host liveness as reported by a discovery scan.
pub struct Status {
    pub state: String,
    pub reason: String,
}

/// One address element of a host: an IP or a MAC, with an optional vendor
/// (present only on MAC entries).
pub struct Address {
    pub addr: String,
    pub addrtype: String,
    pub vendor: Option<String>,
}

/// State of one scanned port.
pub struct State {
    pub state: String,
    pub reason: String,
}

/// A structured product identifier, carried opaquely.
pub struct Cpe {
    pub value: String,
}

/// Service details guessed for an open port; every field is optional.
pub struct Service {
    pub name: Option<String>,
    pub product: Option<String>,
    pub version: Option<String>,
    pub extrainfo: Option<String>,
    pub ostype: Option<String>,
    pub cpe: Option<Vec<Cpe>>,
}

/// One key/value pair inside a script table.
pub struct Elem {
    pub key: String,
    pub value: String,
}

/// A nested table of key/value pairs inside a script result.
pub struct Table {
    pub elem: Vec<Elem>,
}

/// A keyed table of a vulnerability-script result.
pub struct ScriptTable {
    pub key: String,
    pub table: Vec<Table>,
}

/// One script result: a sequence of keyed tables, kept structurally.
pub struct Script {
    pub tables: Vec<ScriptTable>,
}

/// One scanned port with its state, optional service and script results.
pub struct Port {
    pub protocol: String,
    pub portid: String,
    pub state: State,
    pub service: Option<Service>,
    pub script: Vec<Script>,
}

/// One class within an OS guess; every field is optional.
pub struct OSClass {
    pub os_type: Option<String>,
    pub vendor: Option<String>,
    pub osfamily: Option<String>,
    pub cpe: Option<Vec<Cpe>>,
}

/// One OS guess for a host.
pub struct OSMatch {
    pub name: String,
    pub osclass: Vec<OSClass>,
}

/// One host entry of a report; every part may be absent or repeated.
pub struct HostEntry {
    pub status: Option<Status>,
    pub address: Vec<Address>,
    pub ports: Option<Vec<Port>>,
    pub os: Option<Vec<OSMatch>>,
}

/// A parsed report: the ordered sequence of its host entries.
pub struct ScanReport {
    pub hosts: Vec<HostEntry>,
}

/// The flat host-status record handed to the caller, one per host entry.
pub struct HostInfo {
    pub state: String,
    pub reason: String,
    pub ip_address: String,
    pub mac_address: String,
    pub vendor: String,
}

} // verus!
