//! The scan pipelines: report text to flat records, with every failure
//! recovered into an empty result, never an abort. Each step is tied to the
//! specification-level parse of the text.

use vstd::prelude::*;
use vstd::string::*;
use crate::command::{run_output_text, RunResult};
use crate::hosts::{build_host_infos, host_info_matches};
use crate::ports::{build_port_records, flat_os, flat_ports};
use crate::report::{HostEntry, HostInfo, OSMatch, Port, ScanReport};
use crate::schema::{children_named, host_matches, hosts_match, report_from_xml, report_readable};
use crate::xml::{node_view, parse_document, spec_parse_document, ParseError, XmlNode};

verus! {

/// The record a host element must have produced: built from a host entry
/// that reads off that element.
pub open spec fn host_record_for(c: XmlNode, hi: HostInfo) -> bool {
    exists|he: HostEntry| #[trigger] host_matches(c, he) && host_info_matches(he, hi)
}

/// The flat port and OS-match lists a report tree must have produced.
pub open spec fn port_records_for(root: XmlNode, ports: Seq<Port>, oss: Seq<OSMatch>) -> bool {
    exists|hosts: Seq<HostEntry>|
        #[trigger] hosts_match(children_named(root.children@, "host"@), hosts) && ports
            == flat_ports(hosts) && oss == flat_os(hosts)
}

/// Report text to report tree: `NotWellFormed` exactly when the text has no
/// specification-level parse; otherwise the result is tied to the parsed tree.
pub fn parse_report(xml: &str) -> (r: Result<ScanReport, ParseError>)
    ensures
        (spec_parse_document(xml@) is None) <==> (r matches Err(e) && e
            == ParseError::NotWellFormed),
        r matches Ok(rep) ==> (exists|root: XmlNode|
            {
                &&& #[trigger] node_view(root) == spec_parse_document(xml@).unwrap()
                &&& spec_parse_document(xml@) is Some
                &&& report_readable(root)
                &&& hosts_match(children_named(root.children@, "host"@), rep.hosts@)
            }),
        (r matches Err(e) && e != ParseError::NotWellFormed) ==> (exists|root: XmlNode|
            {
                &&& #[trigger] node_view(root) == spec_parse_document(xml@).unwrap()
                &&& spec_parse_document(xml@) is Some
                &&& !report_readable(root)
            }),
        (r matches Err(e) && e == ParseError::WrongRoot) ==> (spec_parse_document(xml@)
            matches Some(t) && t.name != "nmaprun"@),
{
    match parse_document(xml) {
        Err(_) => Err(ParseError::NotWellFormed),
        Ok(root) => {
            let res = report_from_xml(&root);
            proof {
                assert(node_view(root).name == root.name@);
                if res is Ok {
                    assert(report_readable(root));
                    assert(hosts_match(
                        children_named(root.children@, "host"@),
                        res.unwrap().hosts@,
                    ));
                } else {
                    assert(!report_readable(root));
                }
                assert(node_view(root) == spec_parse_document(xml@).unwrap());
            }
            res
        },
    }
}

/// Host discovery records from a finished invocation: a failed process or an
/// unreadable report yields the empty list; a readable report yields one
/// record per host element, each built from that element.
pub fn host_scan_records(outcome: RunResult) -> (r: Vec<HostInfo>)
    ensures
        !outcome.success ==> r@.len() == 0,
        outcome.success && spec_parse_document(outcome.stdout@) is None ==> r@.len() == 0,
        outcome.success && spec_parse_document(outcome.stdout@) is Some ==> (exists|root: XmlNode|
            {
                &&& #[trigger] node_view(root) == spec_parse_document(outcome.stdout@).unwrap()
                &&& if report_readable(root) {
                    r@.len() == children_named(root.children@, "host"@).len() && (forall|i: int|
                        0 <= i < r@.len() ==> host_record_for(
                            children_named(root.children@, "host"@)[i],
                            #[trigger] r@[i],
                        ))
                } else {
                    r@.len() == 0
                }
            }),
{
    let ghost stdout_view = outcome.stdout@;
    match run_output_text(outcome) {
        Err(_) => Vec::new(),
        Ok(xml) => {
            proof {
                assert(xml@ == stdout_view);
            }
            match parse_report(xml.as_str()) {
                Err(_) => {
                    proof {
                        if spec_parse_document(stdout_view) is Some {
                            let root = choose|root: XmlNode|
                                {
                                    &&& #[trigger] node_view(root) == spec_parse_document(
                                        stdout_view,
                                    ).unwrap()
                                    &&& spec_parse_document(stdout_view) is Some
                                    &&& !report_readable(root)
                                };
                            assert(node_view(root) == spec_parse_document(stdout_view).unwrap());
                        }
                    }
                    Vec::new()
                },
                Ok(rep) => {
                    let recs = build_host_infos(&rep);
                    proof {
                        let root = choose|root: XmlNode|
                            {
                                &&& #[trigger] node_view(root) == spec_parse_document(
                                    stdout_view,
                                ).unwrap()
                                &&& spec_parse_document(stdout_view) is Some
                                &&& report_readable(root)
                                &&& hosts_match(
                                    children_named(root.children@, "host"@),
                                    rep.hosts@,
                                )
                            };
                        let cs = children_named(root.children@, "host"@);
                        assert(forall|i: int| 0 <= i < recs@.len() ==> host_record_for(
                            cs[i],
                            #[trigger] recs@[i],
                        )) by {
                            assert forall|i: int| 0 <= i < recs@.len() implies host_record_for(
                                cs[i],
                                #[trigger] recs@[i],
                            ) by {
                                assert(host_matches(cs[i], rep.hosts@[i]));
                                assert(host_info_matches(rep.hosts@[i], recs@[i]));
                            }
                        }
                        assert(node_view(root) == spec_parse_document(stdout_view).unwrap());
                    }
                    recs
                },
            }
        },
    }
}

/// Port and OS-match records from a finished invocation: a failed process or
/// an unreadable report yields the empty pair; a readable report yields the
/// flattened lists of some host entries that read off the tree.
pub fn port_scan_records(outcome: RunResult) -> (r: (Vec<Port>, Vec<OSMatch>))
    ensures
        !outcome.success ==> r.0@.len() == 0 && r.1@.len() == 0,
        outcome.success && spec_parse_document(outcome.stdout@) is None ==> (r.0@.len() == 0
            && r.1@.len() == 0),
        outcome.success && spec_parse_document(outcome.stdout@) is Some ==> (exists|root: XmlNode|
            {
                &&& #[trigger] node_view(root) == spec_parse_document(outcome.stdout@).unwrap()
                &&& if report_readable(root) {
                    port_records_for(root, r.0@, r.1@)
                } else {
                    r.0@.len() == 0 && r.1@.len() == 0
                }
            }),
{
    let ghost stdout_view = outcome.stdout@;
    match run_output_text(outcome) {
        Err(_) => (Vec::new(), Vec::new()),
        Ok(xml) => {
            proof {
                assert(xml@ == stdout_view);
            }
            match parse_report(xml.as_str()) {
                Err(_) => {
                    proof {
                        if spec_parse_document(stdout_view) is Some {
                            let root = choose|root: XmlNode|
                                {
                                    &&& #[trigger] node_view(root) == spec_parse_document(
                                        stdout_view,
                                    ).unwrap()
                                    &&& spec_parse_document(stdout_view) is Some
                                    &&& !report_readable(root)
                                };
                            assert(node_view(root) == spec_parse_document(stdout_view).unwrap());
                        }
                    }
                    (Vec::new(), Vec::new())
                },
                Ok(rep) => {
                    let ghost hosts_view = rep.hosts@;
                    let recs = build_port_records(rep);
                    proof {
                        let root = choose|root: XmlNode|
                            {
                                &&& #[trigger] node_view(root) == spec_parse_document(
                                    stdout_view,
                                ).unwrap()
                                &&& spec_parse_document(stdout_view) is Some
                                &&& report_readable(root)
                                &&& hosts_match(
                                    children_named(root.children@, "host"@),
                                    hosts_view,
                                )
                            };
                        assert(hosts_match(children_named(root.children@, "host"@), hosts_view)
                            && recs.0@ == flat_ports(hosts_view) && recs.1@ == flat_os(
                            hosts_view,
                        ));
                        assert(port_records_for(root, recs.0@, recs.1@));
                        assert(node_view(root) == spec_parse_document(stdout_view).unwrap());
                    }
                    recs
                },
            }
        },
    }
}

} // verus!
