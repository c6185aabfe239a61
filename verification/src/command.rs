//! The fixed argument templates for the external scanner, and the
//! classification of a finished invocation into report text or a diagnostic.

use vstd::prelude::*;
use vstd::string::*;
use crate::dec::{dec_rep_signed, dec_string_i32};

verus! {

/// What running the external scanner produced, as plain values.
pub struct RunResult {
    pub success: bool,
    pub code: Option<i32>,
    pub stdout: String,
    pub stderr: String,
}

/// The exit code reported in diagnostics: the process's own, or -1 where it
/// ended without one.
pub open spec fn effective_code(code: Option<i32>) -> int {
    match code {
        Some(c) => c as int,
        None => -1,
    }
}

/// The diagnostic line for a failed invocation.
pub open spec fn diagnostic_rep(code: Option<i32>, stderr: Seq<char>) -> Seq<char> {
    "Command exited with code "@ + dec_rep_signed(effective_code(code)) + ": "@ + stderr
}

pub fn diagnostic_message(code: Option<i32>, stderr: String) -> (r: String)
    ensures
        r@ == diagnostic_rep(code, stderr@),
{
    let mut s: String = String::from_str("Command exited with code ");
    let c: i32 = match code {
        Some(c) => c,
        None => -1,
    };
    let d: String = dec_string_i32(c);
    s.append(d.as_str());
    s.append(": ");
    s.append(stderr.as_str());
    s
}

/// On success the report text is the captured standard output; on failure the
/// error is the diagnostic line, never silently dropped.
pub fn run_output_text(res: RunResult) -> (r: Result<String, String>)
    ensures
        res.success ==> r == Ok::<String, String>(res.stdout),
        !res.success ==> (r matches Err(m) && m@ == diagnostic_rep(res.code, res.stderr@)),
{
    if res.success {
        Ok(res.stdout)
    } else {
        Err(diagnostic_message(res.code, res.stderr))
    }
}

/// Argument list of a discovery (ping) scan: `-sn -oX - <network_address>`.
pub fn discovery_args(network_address: String) -> (r: Vec<String>)
    ensures
        r@.len() == 4,
        r@[0]@ == "-sn"@,
        r@[1]@ == "-oX"@,
        r@[2]@ == "-"@,
        r@[3] == network_address,
{
    let mut v: Vec<String> = Vec::new();
    v.push(String::from_str("-sn"));
    v.push(String::from_str("-oX"));
    v.push(String::from_str("-"));
    v.push(network_address);
    v
}

/// Argument list of a port/service/OS scan with vulnerability scripts:
/// `-A -Pn --script vuln -oX - <ip_address> [<port>]`, the port appended only
/// when it is non-empty.
pub fn port_scan_args(ip_address: String, port: String) -> (r: Vec<String>)
    ensures
        r@[0]@ == "-A"@,
        r@[1]@ == "-Pn"@,
        r@[2]@ == "--script"@,
        r@[3]@ == "vuln"@,
        r@[4]@ == "-oX"@,
        r@[5]@ == "-"@,
        r@[6] == ip_address,
        port@.len() == 0 ==> r@.len() == 7,
        port@.len() > 0 ==> r@.len() == 8 && r@[7] == port,
{
    let mut v: Vec<String> = Vec::new();
    v.push(String::from_str("-A"));
    v.push(String::from_str("-Pn"));
    v.push(String::from_str("--script"));
    v.push(String::from_str("vuln"));
    v.push(String::from_str("-oX"));
    v.push(String::from_str("-"));
    let empty: bool = port.as_str().is_empty();
    v.push(ip_address);
    if !empty {
        v.push(port);
    }
    v
}

} // verus!
