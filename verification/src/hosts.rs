//! Flattening one discovery report into host-status records: every host entry
//! yields exactly one record; a missing status yields blank state and reason;
//! the MAC address entry supplies MAC and vendor, while the last non-MAC
//! address in document order supplies the IP (earlier ones are overwritten).

use vstd::prelude::*;
use vstd::string::*;
use crate::report::{Address, HostEntry, HostInfo, ScanReport};
use crate::strutil::str_eq;

verus! {

/// The IP field of a host: the `addr` of the last address whose type is not
/// `"mac"`, or empty where there is none.
pub open spec fn spec_ip(addrs: Seq<Address>) -> Seq<char>
    decreases addrs.len(),
{
    if addrs.len() == 0 {
        Seq::<char>::empty()
    } else if addrs.last().addrtype@ == "mac"@ {
        spec_ip(addrs.drop_last())
    } else {
        addrs.last().addr@
    }
}

/// The MAC field of a host: the `addr` of the last address whose type is
/// `"mac"`, or empty where there is none.
pub open spec fn spec_mac(addrs: Seq<Address>) -> Seq<char>
    decreases addrs.len(),
{
    if addrs.len() == 0 {
        Seq::<char>::empty()
    } else if addrs.last().addrtype@ == "mac"@ {
        addrs.last().addr@
    } else {
        spec_mac(addrs.drop_last())
    }
}

/// The vendor field of a host: the vendor of the last MAC address, where the
/// entry carries one; empty otherwise.
pub open spec fn spec_vendor(addrs: Seq<Address>) -> Seq<char>
    decreases addrs.len(),
{
    if addrs.len() == 0 {
        Seq::<char>::empty()
    } else if addrs.last().addrtype@ == "mac"@ {
        match addrs.last().vendor {
            Some(v) => v@,
            None => Seq::<char>::empty(),
        }
    } else {
        spec_vendor(addrs.drop_last())
    }
}

/// What one host-status record must hold for its host entry.
pub open spec fn host_info_matches(h: HostEntry, r: HostInfo) -> bool {
    &&& match h.status {
        Some(st) => r.state@ == st.state@ && r.reason@ == st.reason@,
        None => r.state@ == Seq::<char>::empty() && r.reason@ == Seq::<char>::empty(),
    }
    &&& r.ip_address@ == spec_ip(h.address@)
    &&& r.mac_address@ == spec_mac(h.address@)
    &&& r.vendor@ == spec_vendor(h.address@)
}

/// A host entry with no status yields a record with blank state and reason.
pub proof fn lemma_missing_status_blank(h: HostEntry, r: HostInfo)
    requires
        host_info_matches(h, r),
        h.status is None,
    ensures
        r.state@ == Seq::<char>::empty(),
        r.reason@ == Seq::<char>::empty(),
{
}

/// The last address whose type is not `"mac"` supplies the IP field, whatever
/// addresses come before it.
pub proof fn lemma_last_non_mac_wins(addrs: Seq<Address>, i: int)
    requires
        0 <= i < addrs.len(),
        addrs[i].addrtype@ != "mac"@,
        forall|k: int| i < k < addrs.len() ==> #[trigger] addrs[k].addrtype@ == "mac"@,
    ensures
        spec_ip(addrs) == addrs[i].addr@,
    decreases addrs.len(),
{
    if i == addrs.len() - 1 {
    } else {
        assert(addrs.last().addrtype@ == "mac"@);
        assert(forall|k: int| i < k < addrs.drop_last().len()
            ==> #[trigger] addrs.drop_last()[k].addrtype@ == "mac"@);
        lemma_last_non_mac_wins(addrs.drop_last(), i);
    }
}

fn build_host_info(h: &HostEntry) -> (r: HostInfo)
    ensures
        host_info_matches(*h, r),
{
    let mut state: String = String::new();
    let mut reason: String = String::new();
    match &h.status {
        Some(st) => {
            state = st.state.clone();
            reason = st.reason.clone();
        },
        None => {},
    }
    let mut ip_address: String = String::new();
    let mut mac_address: String = String::new();
    let mut vendor: String = String::new();
    let mut i: usize = 0;
    while i < h.address.len()
        invariant
            0 <= i <= h.address@.len(),
            ip_address@ == spec_ip(h.address@.take(i as int)),
            mac_address@ == spec_mac(h.address@.take(i as int)),
            vendor@ == spec_vendor(h.address@.take(i as int)),
        decreases h.address@.len() - i,
    {
        let a: &Address = &h.address[i];
        proof {
            assert(h.address@.take(i as int + 1).drop_last() =~= h.address@.take(i as int));
            assert(h.address@.take(i as int + 1).last() == h.address@[i as int]);
        }
        if str_eq(a.addrtype.as_str(), "mac") {
            mac_address = a.addr.clone();
            match &a.vendor {
                Some(v) => {
                    vendor = v.clone();
                },
                None => {
                    vendor = String::new();
                },
            }
        } else {
            ip_address = a.addr.clone();
        }
        i = i + 1;
    }
    proof {
        assert(h.address@.take(h.address@.len() as int) =~= h.address@);
    }
    HostInfo { state, reason, ip_address, mac_address, vendor }
}

/// One record per host entry, in report order, each built as
/// `host_info_matches` states.
pub fn build_host_infos(report: &ScanReport) -> (r: Vec<HostInfo>)
    ensures
        r@.len() == report.hosts@.len(),
        forall|i: int| 0 <= i < r@.len()
            ==> host_info_matches(report.hosts@[i], #[trigger] r@[i]),
{
    let mut out: Vec<HostInfo> = Vec::new();
    let mut i: usize = 0;
    while i < report.hosts.len()
        invariant
            0 <= i <= report.hosts@.len(),
            out@.len() == i,
            forall|k: int| 0 <= k < i
                ==> host_info_matches(report.hosts@[k], #[trigger] out@[k]),
        decreases report.hosts@.len() - i,
    {
        let info: HostInfo = build_host_info(&report.hosts[i]);
        out.push(info);
        i = i + 1;
    }
    out
}

} // verus!
