use lan_scan::command::{discovery_args, port_scan_args, run_output_text, RunResult};
use lan_scan::hosts::build_host_infos;
use lan_scan::scan::{host_scan_records, parse_report, port_scan_records};
use lan_scan::xml::ParseError;

fn ok_run(stdout: &str) -> RunResult {
    RunResult {
        success: true,
        code: Some(0),
        stdout: stdout.to_string(),
        stderr: String::new(),
    }
}

#[test]
fn discovery_report_parses_and_flattens() {
    let xml = "<?xml version=\"1.0\" encoding=\"UTF-8\"?>\n\
        <!DOCTYPE nmaprun>\n\
        <nmaprun scanner=\"nmap\" args=\"nmap -sn\">\n\
        <host><status state=\"up\" reason=\"arp-response\"/>\n\
        <address addr=\"192.168.1.7\" addrtype=\"ipv4\"/>\n\
        <address addr=\"AA:BB:CC:DD:EE:FF\" addrtype=\"mac\" vendor=\"Acme\"/>\n\
        </host>\n\
        <host><address addr=\"192.168.1.9\" addrtype=\"ipv4\"/></host>\n\
        </nmaprun>";
    let report = parse_report(xml).unwrap();
    assert_eq!(report.hosts.len(), 2);
    let infos = build_host_infos(&report);
    assert_eq!(infos.len(), 2);
    assert_eq!(infos[0].state, "up");
    assert_eq!(infos[0].reason, "arp-response");
    assert_eq!(infos[0].ip_address, "192.168.1.7");
    assert_eq!(infos[0].mac_address, "AA:BB:CC:DD:EE:FF");
    assert_eq!(infos[0].vendor, "Acme");
    assert_eq!(infos[1].state, "");
    assert_eq!(infos[1].ip_address, "192.168.1.9");
}

#[test]
fn empty_scan_yields_zero_hosts() {
    let report = parse_report("<nmaprun scanner=\"nmap\"></nmaprun>").unwrap();
    assert_eq!(report.hosts.len(), 0);
}

#[test]
fn script_table_nesting_is_preserved() {
    let xml = "<nmaprun><host><ports>\
        <port protocol=\"tcp\" portid=\"443\">\
        <state state=\"open\" reason=\"syn-ack\"/>\
        <service name=\"https\" product=\"nginx\" version=\"1.2\"/>\
        <script id=\"vuln-check\">\
        <table key=\"CVE-0000-0001\">\
        <table><elem key=\"state\">VULNERABLE</elem><elem key=\"score\">7.5</elem></table>\
        <table><elem key=\"state\">LIKELY</elem></table>\
        </table>\
        </script>\
        </port>\
        </ports><os>\
        <osmatch name=\"Linux 5.X\">\
        <osclass type=\"general purpose\" vendor=\"Linux\" osfamily=\"Linux\">\
        <cpe>cpe:/o:linux:linux_kernel:5</cpe></osclass>\
        </osmatch>\
        </os></host></nmaprun>";
    let (ports, oss) = port_scan_records(ok_run(xml));
    assert_eq!(ports.len(), 1);
    let p = &ports[0];
    assert_eq!(p.protocol, "tcp");
    assert_eq!(p.portid, "443");
    assert_eq!(p.state.state, "open");
    assert_eq!(p.state.reason, "syn-ack");
    let sv = p.service.as_ref().unwrap();
    assert_eq!(sv.name.as_deref(), Some("https"));
    assert_eq!(sv.product.as_deref(), Some("nginx"));
    assert_eq!(sv.version.as_deref(), Some("1.2"));
    assert_eq!(sv.extrainfo, None);
    assert!(sv.cpe.is_none());
    assert_eq!(p.script.len(), 1);
    let tables = &p.script[0].tables;
    assert_eq!(tables.len(), 1);
    assert_eq!(tables[0].key, "CVE-0000-0001");
    assert_eq!(tables[0].table.len(), 2);
    assert_eq!(tables[0].table[0].elem.len(), 2);
    assert_eq!(tables[0].table[0].elem[0].key, "state");
    assert_eq!(tables[0].table[0].elem[0].value, "VULNERABLE");
    assert_eq!(tables[0].table[0].elem[1].key, "score");
    assert_eq!(tables[0].table[0].elem[1].value, "7.5");
    assert_eq!(tables[0].table[1].elem.len(), 1);
    assert_eq!(tables[0].table[1].elem[0].value, "LIKELY");
    assert_eq!(oss.len(), 1);
    assert_eq!(oss[0].name, "Linux 5.X");
    assert_eq!(oss[0].osclass.len(), 1);
    let oc = &oss[0].osclass[0];
    assert_eq!(oc.os_type.as_deref(), Some("general purpose"));
    assert_eq!(oc.vendor.as_deref(), Some("Linux"));
    assert_eq!(oc.osfamily.as_deref(), Some("Linux"));
    let cpes = oc.cpe.as_ref().unwrap();
    assert_eq!(cpes.len(), 1);
    assert_eq!(cpes[0].value, "cpe:/o:linux:linux_kernel:5");
}

#[test]
fn process_exit_failure_yields_empty_host_list() {
    let outcome = RunResult {
        success: false,
        code: Some(1),
        stdout: String::new(),
        stderr: "host seems down".to_string(),
    };
    let infos = host_scan_records(outcome);
    assert_eq!(infos.len(), 0);
}

#[test]
fn process_exit_failure_yields_empty_port_lists() {
    let outcome = RunResult {
        success: false,
        code: None,
        stdout: String::new(),
        stderr: String::new(),
    };
    let (ports, oss) = port_scan_records(outcome);
    assert_eq!(ports.len(), 0);
    assert_eq!(oss.len(), 0);
}

#[test]
fn unreadable_report_yields_empty_host_list() {
    let infos = host_scan_records(ok_run("this is not xml"));
    assert_eq!(infos.len(), 0);
}

#[test]
fn failed_run_carries_diagnostic() {
    let outcome = RunResult {
        success: false,
        code: Some(1),
        stdout: String::new(),
        stderr: "boom".to_string(),
    };
    assert_eq!(run_output_text(outcome), Err("Command exited with code 1: boom".to_string()));
}

#[test]
fn killed_run_reports_minus_one() {
    let outcome = RunResult {
        success: false,
        code: None,
        stdout: String::new(),
        stderr: "signal".to_string(),
    };
    assert_eq!(run_output_text(outcome), Err("Command exited with code -1: signal".to_string()));
}

#[test]
fn successful_run_hands_back_stdout() {
    let outcome = ok_run("<nmaprun></nmaprun>");
    assert_eq!(run_output_text(outcome), Ok("<nmaprun></nmaprun>".to_string()));
}

#[test]
fn wrong_root_is_reported() {
    assert_eq!(parse_report("<foo></foo>").err(), Some(ParseError::WrongRoot));
}

#[test]
fn missing_required_attribute_is_reported() {
    let xml = "<nmaprun><host><status state=\"up\"/></host></nmaprun>";
    assert_eq!(parse_report(xml).err(), Some(ParseError::MissingField));
}

#[test]
fn malformed_document_is_reported() {
    assert_eq!(parse_report("no xml at all").err(), Some(ParseError::NotWellFormed));
    assert_eq!(parse_report("<nmaprun><host></nmaprun>").err(), Some(ParseError::NotWellFormed));
    assert_eq!(parse_report("").err(), Some(ParseError::NotWellFormed));
}

#[test]
fn discovery_argument_template() {
    let args = discovery_args("192.168.1.0/24".to_string());
    assert_eq!(args, vec!["-sn", "-oX", "-", "192.168.1.0/24"]);
}

#[test]
fn port_scan_argument_template() {
    let args = port_scan_args("192.168.1.7".to_string(), String::new());
    assert_eq!(args, vec!["-A", "-Pn", "--script", "vuln", "-oX", "-", "192.168.1.7"]);
    let args = port_scan_args("192.168.1.7".to_string(), "443".to_string());
    assert_eq!(args, vec!["-A", "-Pn", "--script", "vuln", "-oX", "-", "192.168.1.7", "443"]);
}

#[test]
fn entity_references_are_decoded() {
    let xml = "<nmaprun><host>\
        <status state=\"up\" reason=\"A&amp;B\"/>\
        <address addr=\"10.0.0.1\" addrtype=\"ipv4\" vendor=\"Tom &amp; Co &lt;intl&gt;\"/>\
        </host></nmaprun>";
    let report = parse_report(xml).unwrap();
    let infos = build_host_infos(&report);
    assert_eq!(infos[0].reason, "A&B");
    assert_eq!(report.hosts[0].address[0].vendor.as_deref(), Some("Tom & Co <intl>"));
}

#[test]
fn entity_references_in_text_are_decoded() {
    let xml = "<nmaprun><host><ports>\
        <port protocol=\"tcp\" portid=\"80\"><state state=\"open\" reason=\"syn-ack\"/>\
        <script><table key=\"k\"><table>\
        <elem key=\"out\">1 &lt; 2 &amp;&amp; &quot;q&quot; &apos;a&apos; &unknown; &gt;</elem>\
        </table></table></script>\
        </port></ports></host></nmaprun>";
    let report = parse_report(xml).unwrap();
    let port = &report.hosts[0].ports.as_ref().unwrap()[0];
    assert_eq!(
        port.script[0].tables[0].table[0].elem[0].value,
        "1 < 2 && \"q\" 'a' &unknown; >"
    );
}

#[test]
fn trailing_content_is_rejected() {
    assert_eq!(
        parse_report("<nmaprun></nmaprun><nmaprun></nmaprun>").err(),
        Some(ParseError::NotWellFormed)
    );
}

#[test]
fn mismatched_closing_tag_is_rejected() {
    assert_eq!(parse_report("<nmaprun><host></nmaprun></host>").err(), Some(ParseError::NotWellFormed));
}

#[test]
fn comments_and_prolog_are_skipped() {
    let xml = "  <?xml version=\"1.0\"?> <!-- a scan > of the lan -->\n\
        <nmaprun><!-- nothing yet --></nmaprun> \n ";
    let report = parse_report(xml).unwrap();
    assert_eq!(report.hosts.len(), 0);
}
