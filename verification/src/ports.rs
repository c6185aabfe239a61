//! Flattening one scan report into parallel lists of port records and OS-match
//! records: every port and every OS match of every host appears exactly once,
//! in host-then-document order; host identity is deliberately discarded.

use vstd::prelude::*;
use crate::report::{HostEntry, OSMatch, Port, ScanReport};

verus! {

pub open spec fn spec_host_ports(h: HostEntry) -> Seq<Port> {
    match h.ports {
        Some(v) => v@,
        None => Seq::<Port>::empty(),
    }
}

pub open spec fn spec_host_os(h: HostEntry) -> Seq<OSMatch> {
    match h.os {
        Some(v) => v@,
        None => Seq::<OSMatch>::empty(),
    }
}

/// All port entries of the report's hosts, concatenated in order.
pub open spec fn flat_ports(hosts: Seq<HostEntry>) -> Seq<Port>
    decreases hosts.len(),
{
    if hosts.len() == 0 {
        Seq::<Port>::empty()
    } else {
        flat_ports(hosts.drop_last()) + spec_host_ports(hosts.last())
    }
}

/// All OS matches of the report's hosts, concatenated in order.
pub open spec fn flat_os(hosts: Seq<HostEntry>) -> Seq<OSMatch>
    decreases hosts.len(),
{
    if hosts.len() == 0 {
        Seq::<OSMatch>::empty()
    } else {
        flat_os(hosts.drop_last()) + spec_host_os(hosts.last())
    }
}

/// No port and no OS match is dropped or invented: the flattened lists are
/// exactly the concatenations of the per-host lists, in report order.
pub fn build_port_records(report: ScanReport) -> (r: (Vec<Port>, Vec<OSMatch>))
    ensures
        r.0@ == flat_ports(report.hosts@),
        r.1@ == flat_os(report.hosts@),
{
    let mut hosts: Vec<HostEntry> = report.hosts;
    let ghost orig: Seq<HostEntry> = hosts@;
    let mut ports: Vec<Port> = Vec::new();
    let mut oss: Vec<OSMatch> = Vec::new();
    while hosts.len() > 0
        invariant
            hosts@.len() <= orig.len(),
            hosts@ == orig.subrange(orig.len() - hosts@.len(), orig.len() as int),
            ports@ == flat_ports(orig.take(orig.len() - hosts@.len())),
            oss@ == flat_os(orig.take(orig.len() - hosts@.len())),
        decreases hosts@.len(),
    {
        let ghost k: int = orig.len() - hosts@.len();
        let h: HostEntry = hosts.remove(0);
        proof {
            assert(h == orig[k]);
            assert(hosts@ =~= orig.subrange(orig.len() - hosts@.len(), orig.len() as int));
            assert(orig.take(k + 1).drop_last() =~= orig.take(k));
            assert(orig.take(k + 1).last() == orig[k]);
        }
        match h.ports {
            Some(mut pv) => {
                ports.append(&mut pv);
            },
            None => {},
        }
        match h.os {
            Some(mut ov) => {
                oss.append(&mut ov);
            },
            None => {},
        }
    }
    proof {
        assert(orig.take(orig.len() as int) =~= orig);
    }
    (ports, oss)
}

} // verus!
